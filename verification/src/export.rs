//! Export formats, file naming, and the export forms of the rendered page.
use vstd::prelude::*;
use crate::assets::{
    CONTENT_TYPES_XML, DOCX_APP_XML, DOCX_SETTINGS_XML, DOCX_STYLES_XML, PACKAGE_RELS_XML,
    TYPORA_BASE_EXPORT_CSS, TYPORA_HTML_EXPORT_CSS, TYPORA_IMAGE_EXPORT_CSS,
    TYPORA_PANDOC_EXPORT_CSS, TYPORA_PRINT_EXPORT_CSS,
};
use crate::docx::{
    DocxBlock, DocxStyle, blocks_view, docx_blocks, docx_blocks_from_html, docx_document_xml,
    document_xml, push_xml_escaped, xml_escaped,
};
use crate::html::{main_body, main_body_chars};
use crate::model::{outline_view};
use crate::paths::{
    extension, extension_chars, file_name, file_name_range, file_stem, join, parent, path_file_stem,
    path_join, path_parent, path_with_extension, with_extension,
};
use crate::preview::front_matter::FrontMatter;
use crate::preview::outline::{attr_escaped, push_attr_escaped};
use crate::preview::renderer::{
    RenderedDocument, export_html_packaged, export_html_with_base, html_for_export_with_asset_package, html_for_export_with_base,
};
use crate::preview::urls::{PathFacts, lossy_text, string_from_utf8_lossy};
use crate::model::OutlineView;
use crate::settings::{opt_view, strings_view};
use crate::settings::{eq_ignore_case, eq_ignore_case_exec};
use crate::text::{
    blank, chars_of, contains, extend, extend_range, find, find_from, find_from_exec, is_blank,
    lemma_find_from, matches_at, replace_first, replace_first_exec, slice_to_vec, string_from,
    trim, trim_str,
};

verus! {

/// The formats a document can be exported to.
#[derive(Debug, Clone, Copy, PartialEq, Eq, Structural)]
pub enum ExportFormat {
    Html,
    HtmlPlain,
    Pdf,
    Png,
    Jpeg,
    Docx,
    Odt,
    Rtf,
    Epub,
    Latex,
    Rst,
    Textile,
    Opml,
    RevealJs,
}

pub open spec fn format_label(f: ExportFormat) -> Seq<char> {
    match f {
        ExportFormat::Html => "HTML"@,
        ExportFormat::HtmlPlain => "HTML (无样式)"@,
        ExportFormat::Pdf => "PDF"@,
        ExportFormat::Png => "PNG"@,
        ExportFormat::Jpeg => "JPEG"@,
        ExportFormat::Docx => "Word (.docx)"@,
        ExportFormat::Odt => "OpenOffice (.odt)"@,
        ExportFormat::Rtf => "RTF"@,
        ExportFormat::Epub => "EPUB"@,
        ExportFormat::Latex => "LaTeX"@,
        ExportFormat::Rst => "reStructuredText"@,
        ExportFormat::Textile => "Textile"@,
        ExportFormat::Opml => "OPML"@,
        ExportFormat::RevealJs => "RevealJS"@,
    }
}

pub open spec fn format_extension(f: ExportFormat) -> Seq<char> {
    match f {
        ExportFormat::Html | ExportFormat::HtmlPlain => "html"@,
        ExportFormat::Pdf => "pdf"@,
        ExportFormat::Png => "png"@,
        ExportFormat::Jpeg => "jpg"@,
        ExportFormat::Docx => "docx"@,
        ExportFormat::Odt => "odt"@,
        ExportFormat::Rtf => "rtf"@,
        ExportFormat::Epub => "epub"@,
        ExportFormat::Latex => "tex"@,
        ExportFormat::Rst => "rst"@,
        ExportFormat::Textile => "textile"@,
        ExportFormat::Opml => "opml"@,
        ExportFormat::RevealJs => "html"@,
    }
}

pub open spec fn format_pandoc_target(f: ExportFormat) -> Option<Seq<char>> {
    match f {
        ExportFormat::Docx => Some("docx"@),
        ExportFormat::Odt => Some("odt"@),
        ExportFormat::Rtf => Some("rtf"@),
        ExportFormat::Epub => Some("epub3"@),
        ExportFormat::Latex => Some("latex"@),
        ExportFormat::Rst => Some("rst"@),
        ExportFormat::Textile => Some("textile"@),
        ExportFormat::Opml => Some("opml"@),
        ExportFormat::RevealJs => Some("revealjs"@),
        _ => None,
    }
}

/// Every format, in the order the export panel lists them.
pub open spec fn all_formats() -> Seq<ExportFormat> {
    seq![
        ExportFormat::Html,
        ExportFormat::HtmlPlain,
        ExportFormat::Pdf,
        ExportFormat::Png,
        ExportFormat::Jpeg,
        ExportFormat::Docx,
        ExportFormat::Odt,
        ExportFormat::Rtf,
        ExportFormat::Epub,
        ExportFormat::Latex,
        ExportFormat::Rst,
        ExportFormat::Textile,
        ExportFormat::Opml,
        ExportFormat::RevealJs,
    ]
}

/// How an export is carried out.
#[derive(Debug, Clone, Copy, PartialEq, Eq, Structural)]
pub enum ExportRoute {
    /// The styled page with its assets next to it.
    StyledHtml,
    /// The bare body in a minimal page.
    PlainHtml,
    /// The built-in Word writer.
    BuiltinDocx,
    /// A headless Chromium printing to PDF.
    ChromiumPdf,
    /// A headless Chromium taking a screenshot.
    ChromiumImage,
    /// Pandoc.
    Pandoc,
}

/// Which exporter handles a format (the dispatch of `export_document`).
pub open spec fn format_route(f: ExportFormat) -> ExportRoute {
    match f {
        ExportFormat::Html => ExportRoute::StyledHtml,
        ExportFormat::HtmlPlain => ExportRoute::PlainHtml,
        ExportFormat::Docx => ExportRoute::BuiltinDocx,
        ExportFormat::Pdf => ExportRoute::ChromiumPdf,
        ExportFormat::Png | ExportFormat::Jpeg => ExportRoute::ChromiumImage,
        _ => ExportRoute::Pandoc,
    }
}

impl ExportFormat {
    /// The name shown for the format.
    pub fn label(self) -> (r: &'static str)
        ensures
            r@ == format_label(self),
    {
        match self {
            ExportFormat::Html => "HTML",
            ExportFormat::HtmlPlain => "HTML (无样式)",
            ExportFormat::Pdf => "PDF",
            ExportFormat::Png => "PNG",
            ExportFormat::Jpeg => "JPEG",
            ExportFormat::Docx => "Word (.docx)",
            ExportFormat::Odt => "OpenOffice (.odt)",
            ExportFormat::Rtf => "RTF",
            ExportFormat::Epub => "EPUB",
            ExportFormat::Latex => "LaTeX",
            ExportFormat::Rst => "reStructuredText",
            ExportFormat::Textile => "Textile",
            ExportFormat::Opml => "OPML",
            ExportFormat::RevealJs => "RevealJS",
        }
    }

    /// The file extension of the format.
    pub fn extension(self) -> (r: &'static str)
        ensures
            r@ == format_extension(self),
    {
        match self {
            ExportFormat::Html | ExportFormat::HtmlPlain => "html",
            ExportFormat::Pdf => "pdf",
            ExportFormat::Png => "png",
            ExportFormat::Jpeg => "jpg",
            ExportFormat::Docx => "docx",
            ExportFormat::Odt => "odt",
            ExportFormat::Rtf => "rtf",
            ExportFormat::Epub => "epub",
            ExportFormat::Latex => "tex",
            ExportFormat::Rst => "rst",
            ExportFormat::Textile => "textile",
            ExportFormat::Opml => "opml",
            ExportFormat::RevealJs => "html",
        }
    }

    /// Every format.
    pub fn all() -> (r: Vec<Self>)
        ensures
            r@ == all_formats(),
    {
        let r = vec![
            Self::Html,
            Self::HtmlPlain,
            Self::Pdf,
            Self::Png,
            Self::Jpeg,
            Self::Docx,
            Self::Odt,
            Self::Rtf,
            Self::Epub,
            Self::Latex,
            Self::Rst,
            Self::Textile,
            Self::Opml,
            Self::RevealJs,
        ];
        assert(r@ =~= all_formats());
        r
    }

    /// The Pandoc writer of the format, for those Pandoc produces.
    pub fn pandoc_target(self) -> (r: Option<&'static str>)
        ensures
            match r {
                Some(t) => format_pandoc_target(self) == Some(t@),
                None => format_pandoc_target(self) is None,
            },
    {
        match self {
            ExportFormat::Docx => Some("docx"),
            ExportFormat::Odt => Some("odt"),
            ExportFormat::Rtf => Some("rtf"),
            ExportFormat::Epub => Some("epub3"),
            ExportFormat::Latex => Some("latex"),
            ExportFormat::Rst => Some("rst"),
            ExportFormat::Textile => Some("textile"),
            ExportFormat::Opml => Some("opml"),
            ExportFormat::RevealJs => Some("revealjs"),
            _ => None,
        }
    }

    /// How `export_document` carries the format out.
    pub fn route(self) -> (r: ExportRoute)
        ensures
            r == format_route(self),
    {
        match self {
            ExportFormat::Html => ExportRoute::StyledHtml,
            ExportFormat::HtmlPlain => ExportRoute::PlainHtml,
            ExportFormat::Docx => ExportRoute::BuiltinDocx,
            ExportFormat::Pdf => ExportRoute::ChromiumPdf,
            ExportFormat::Png | ExportFormat::Jpeg => ExportRoute::ChromiumImage,
            _ => ExportRoute::Pandoc,
        }
    }
}

/// Law: every format that `route` sends to Pandoc has a Pandoc writer.
pub proof fn lemma_pandoc_formats_have_targets(f: ExportFormat)
    requires
        match f {
            ExportFormat::Html | ExportFormat::HtmlPlain | ExportFormat::Docx | ExportFormat::Pdf
            | ExportFormat::Png | ExportFormat::Jpeg => false,
            _ => true,
        },
    ensures
        format_pandoc_target(f) is Some,
{
}

/// Law: each format is converted by the Pandoc writer of that name: Word by
/// `docx`, OpenDocument by `odt`, RTF by `rtf`, EPUB by `epub3`, LaTeX by
/// `latex`, reStructuredText by `rst`, Textile by `textile`, OPML by `opml`
/// and reveal.js slides by `revealjs`; the HTML, PDF and image formats have
/// no Pandoc writer.
pub proof fn lemma_pandoc_writer_names()
    ensures
        format_pandoc_target(ExportFormat::Docx) == Some("docx"@),
        format_pandoc_target(ExportFormat::Odt) == Some("odt"@),
        format_pandoc_target(ExportFormat::Rtf) == Some("rtf"@),
        format_pandoc_target(ExportFormat::Epub) == Some("epub3"@),
        format_pandoc_target(ExportFormat::Latex) == Some("latex"@),
        format_pandoc_target(ExportFormat::Rst) == Some("rst"@),
        format_pandoc_target(ExportFormat::Textile) == Some("textile"@),
        format_pandoc_target(ExportFormat::Opml) == Some("opml"@),
        format_pandoc_target(ExportFormat::RevealJs) == Some("revealjs"@),
        format_pandoc_target(ExportFormat::Html) is None,
        format_pandoc_target(ExportFormat::HtmlPlain) is None,
        format_pandoc_target(ExportFormat::Pdf) is None,
        format_pandoc_target(ExportFormat::Png) is None,
        format_pandoc_target(ExportFormat::Jpeg) is None,
{
}

/// What to export where.
#[derive(Debug)]
pub struct ExportRequest {
    pub format: ExportFormat,
    pub rendered: RenderedDocument,
    pub base_dir: Option<String>,
    pub output_path: String,
    pub pandoc_path: Option<String>,
    pub chromium_path: Option<String>,
}

/// Where an export went, and the command that made it.
#[derive(Debug, Clone)]
pub struct ExportResult {
    pub path: String,
    pub command: Option<String>,
}

proof fn lemma_format_extension_plain(f: ExportFormat)
    ensures
        format_extension(f).len() > 0,
        forall|i: int|
            0 <= i < format_extension(f).len() ==> #[trigger] format_extension(f)[i] != '.'
                && format_extension(f)[i] != '/',
{
    reveal_strlit("html");
    reveal_strlit("pdf");
    reveal_strlit("png");
    reveal_strlit("jpg");
    reveal_strlit("docx");
    reveal_strlit("odt");
    reveal_strlit("rtf");
    reveal_strlit("epub");
    reveal_strlit("tex");
    reveal_strlit("rst");
    reveal_strlit("textile");
    reveal_strlit("opml");
}

/// Law: a normalized export path of a path that names a file carries the
/// format's extension (in some ASCII case), is the path itself when that
/// already was its extension, keeps the path apart from its extension, and
/// normalizing it again changes nothing.
pub proof fn lemma_normalized_export_path(path: Seq<char>, f: ExportFormat)
    requires
        file_name(path) is Some,
    ensures
        (extension(path) is Some && eq_ignore_case(extension(path)->0, format_extension(f)))
            ==> normalized_export_path(path, f) == path,
        with_extension(normalized_export_path(path, f), Seq::empty()) == with_extension(
            path,
            Seq::empty(),
        ),
        extension(normalized_export_path(path, f)) is Some,
        eq_ignore_case(extension(normalized_export_path(path, f))->0, format_extension(f)),
        normalized_export_path(normalized_export_path(path, f), f) == normalized_export_path(
            path,
            f,
        ),
{
    lemma_format_extension_plain(f);
    let e = format_extension(f);
    let current = match extension(path) {
        Some(c) => c,
        None => Seq::empty(),
    };
    if !eq_ignore_case(current, e) {
        crate::paths::lemma_with_extension(path, e);
        assert(eq_ignore_case(e, e));
    }
}

/// The path keeps its extension when it already is
/// the format's (in any ASCII case); else the extension is replaced.
pub open spec fn normalized_export_path(path: Seq<char>, f: ExportFormat) -> Seq<char> {
    let current = match extension(path) {
        Some(e) => e,
        None => Seq::empty(),
    };
    if eq_ignore_case(current, format_extension(f)) {
        path
    } else {
        with_extension(path, format_extension(f))
    }
}

/// Gives an export path the format's extension unless it already has it.
pub fn normalize_export_path(path: String, format: ExportFormat) -> (r: String)
    ensures
        r@ == normalized_export_path(path@, format),
{
    let expected = format.extension();
    let p = chars_of(path.as_str());
    let current = match extension_chars(&p) {
        Some(e) => chars_of(e.as_str()),
        None => Vec::new(),
    };
    if eq_ignore_case_exec(&current, &chars_of(expected)) {
        return path;
    }
    path_with_extension(path.as_str(), expected)
}

/// `<stem>.<extension>` in the default folder, else
/// next to the source, else in the current folder (read by the caller).
pub open spec fn default_path(
    source: Option<Seq<char>>,
    default_dir: Option<Seq<char>>,
    f: ExportFormat,
    current_dir: Seq<char>,
) -> Seq<char> {
    let stem = match source {
        Some(s) => match file_stem(s) {
            Some(t) => t,
            None => "untitled"@,
        },
        None => "untitled"@,
    };
    let dir = match default_dir {
        Some(d) => d,
        None => match source {
            Some(s) => match parent(s) {
                Some(p) => p,
                None => current_dir,
            },
            None => current_dir,
        },
    };
    join(dir, stem + "."@ + format_extension(f))
}

/// The path an export is first offered under (`default_path`).
pub fn default_export_path(
    source_path: Option<&str>,
    default_dir: Option<&str>,
    format: ExportFormat,
    current_dir: &str,
) -> (r: String)
    ensures
        r@ == default_path(
            match source_path {
                Some(s) => Some(s@),
                None => None,
            },
            match default_dir {
                Some(d) => Some(d@),
                None => None,
            },
            format,
            current_dir@,
        ),
{
    let stem = match source_path {
        Some(s) => match path_file_stem(s) {
            Some(t) => t,
            None => string_from(&chars_of("untitled")),
        },
        None => string_from(&chars_of("untitled")),
    };
    let dir = match default_dir {
        Some(d) => string_from(&chars_of(d)),
        None => match source_path {
            Some(s) => match path_parent(s) {
                Some(p) => p,
                None => string_from(&chars_of(current_dir)),
            },
            None => string_from(&chars_of(current_dir)),
        },
    };
    let mut name = chars_of(stem.as_str());
    extend(&mut name, &chars_of("."));
    extend(&mut name, &chars_of(format.extension()));
    let name_s = string_from(&name);
    path_join(dir.as_str(), name_s.as_str())
}

/// The assets folder of an HTML export: `<stem>.assets` next to the output
/// (the stem `export` when it is blank or missing), as (folder, URL prefix).
pub open spec fn asset_package(output: Seq<char>) -> (Seq<char>, Seq<char>) {
    let dir = match parent(output) {
        Some(p) => p,
        None => "."@,
    };
    let stem = match file_stem(output) {
        Some(s) => if is_blank(s) {
            "export"@
        } else {
            s
        },
        None => "export"@,
    };
    let prefix = stem + ".assets"@;
    (join(dir, prefix), prefix)
}

/// `output_asset_package` without the folder creation, which the caller
/// does.
pub fn output_asset_package(output_path: &str) -> (r: (String, String))
    ensures
        (r.0@, r.1@) == asset_package(output_path@),
{
    let dir = match path_parent(output_path) {
        Some(p) => p,
        None => string_from(&chars_of(".")),
    };
    let stem = match path_file_stem(output_path) {
        Some(s) => if blank(&chars_of(s.as_str())) {
            string_from(&chars_of("export"))
        } else {
            s
        },
        None => string_from(&chars_of("export")),
    };
    let mut prefix = chars_of(stem.as_str());
    extend(&mut prefix, &chars_of(".assets"));
    let prefix_s = string_from(&prefix);
    (path_join(dir.as_str(), prefix_s.as_str()), prefix_s)
}


/// The title of an export: a non-blank `title` from the front matter, else
/// the first heading, else `Markdown Export`.
pub open spec fn title_of(fm: FrontMatter, outline: Seq<OutlineView>) -> Seq<char> {
    match fm.value_of("title"@) {
        Some(t) if !is_blank(t) => t,
        _ => if outline.len() > 0 {
            outline[0].title
        } else {
            "Markdown Export"@
        },
    }
}

/// The title of an exported document (`title_of`).
pub fn export_title(rendered: &RenderedDocument) -> (r: String)
    ensures
        r@ == title_of(rendered.front_matter, outline_view(rendered.outline@)),
{
    if let Some(t) = rendered.front_matter.get("title") {
        if !blank(&chars_of(t.as_str())) {
            return t.clone();
        }
    }
    if rendered.outline.len() > 0 {
        rendered.outline[0].title.clone()
    } else {
        string_from(&chars_of("Markdown Export"))
    }
}

/// `&`, `<`, `>` and `"` become entities.
pub fn escape_html(value: &str) -> (r: String)
    ensures
        r@ == attr_escaped(value@),
{
    let v = chars_of(value);
    let mut out: Vec<char> = Vec::new();
    push_attr_escaped(&mut out, &v);
    assert(out@ =~= attr_escaped(value@));
    string_from(&out)
}

/// The look an exported page takes.
#[derive(Debug, Clone, Copy, PartialEq, Eq, Structural)]
pub enum ExportProfile {
    Html,
    Print,
    Image,
    Pandoc,
}

pub open spec fn profile_data(p: ExportProfile) -> Seq<char> {
    match p {
        ExportProfile::Html => "typora-html"@,
        ExportProfile::Print => "typora-print"@,
        ExportProfile::Image => "typora-image"@,
        ExportProfile::Pandoc => "typora-pandoc"@,
    }
}

pub open spec fn profile_css(p: ExportProfile) -> Seq<char> {
    TYPORA_BASE_EXPORT_CSS@ + match p {
        ExportProfile::Html => TYPORA_HTML_EXPORT_CSS@,
        ExportProfile::Print => TYPORA_PRINT_EXPORT_CSS@,
        ExportProfile::Image => TYPORA_IMAGE_EXPORT_CSS@,
        ExportProfile::Pandoc => TYPORA_PANDOC_EXPORT_CSS@,
    }
}

impl ExportProfile {
    /// The `data-export` value of the profile.
    pub fn data_value(self) -> (r: &'static str)
        ensures
            r@ == profile_data(self),
    {
        match self {
            ExportProfile::Html => "typora-html",
            ExportProfile::Print => "typora-print",
            ExportProfile::Image => "typora-image",
            ExportProfile::Pandoc => "typora-pandoc",
        }
    }

    /// The stylesheet of the profile: the shared rules, then its own.
    pub fn css(self) -> (r: String)
        ensures
            r@ == profile_css(self),
    {
        let mut v = chars_of(TYPORA_BASE_EXPORT_CSS);
        let own = match self {
            ExportProfile::Html => TYPORA_HTML_EXPORT_CSS,
            ExportProfile::Print => TYPORA_PRINT_EXPORT_CSS,
            ExportProfile::Image => TYPORA_IMAGE_EXPORT_CSS,
            ExportProfile::Pandoc => TYPORA_PANDOC_EXPORT_CSS,
        };
        extend(&mut v, &chars_of(own));
        string_from(&v)
    }
}

/// The first `<script>` element removed.
pub open spec fn script_stripped(h: Seq<char>) -> Seq<char> {
    match find(h, "<script>"@) {
        None => h,
        Some(s) => match find_from(h, "</script>"@, s) {
            None => h,
            Some(e) => h.take(s) + h.skip(e + "</script>"@.len()),
        },
    }
}

/// Removes the first script element of a page.
pub fn strip_preview_script(html: &str) -> (r: String)
    ensures
        r@ == script_stripped(html@),
{
    let h = chars_of(html);
    let open = chars_of("<script>");
    let close = chars_of("</script>");
    proof {
        lemma_find_from(h@, open@, 0);
    }
    let start = match find_from_exec(&h, &open, 0) {
        None => return string_from(&h),
        Some(s) => s,
    };
    proof {
        lemma_find_from(h@, close@, start as int);
    }
    let end = match find_from_exec(&h, &close, start) {
        None => return string_from(&h),
        Some(e) => e,
    };
    assert(matches_at(h@, end as int, close@));
    let n = h.len();
    assert(end + close.len() <= n);
    let mut out = slice_to_vec(&h, 0, start);
    extend_range(&mut out, &h, end + close.len(), h.len());
    assert(out@ =~= h@.take(start as int) + h@.skip(end + close@.len()));
    string_from(&out)
}

/// The opening `html` tag of the preview page.
pub open spec fn html_open_tag() -> Seq<char> {
    "<html lang=\"zh-CN\" data-theme=\"light\">"@
}

/// The profile named on the `html` tag, a `<title>`
/// added after `<head>` when there is none, the profile's rules added to
/// the end of the first stylesheet, and for Pandoc the script removed.
pub open spec fn profiled(html: Seq<char>, title: Seq<char>, p: ExportProfile) -> Seq<char> {
    let h1 = replace_first(
        html,
        html_open_tag(),
        "<html lang=\"zh-CN\" data-theme=\"light\" data-export=\""@ + profile_data(p) + "\">"@,
    );
    let h2 = if contains(h1, "<title>"@) {
        h1
    } else {
        replace_first(h1, "<head>"@, "<head>\n<title>"@ + attr_escaped(title) + "</title>"@)
    };
    let h3 = replace_first(h2, "</style>"@, "\n"@ + profile_css(p) + "\n</style>"@);
    if p is Pandoc {
        script_stripped(h3)
    } else {
        h3
    }
}

/// Marks a page with an export profile and its stylesheet (`profiled`).
pub fn apply_export_profile(html: String, rendered: &RenderedDocument, profile: ExportProfile) -> (r: String)
    ensures
        r@ == profiled(
            html@,
            title_of(rendered.front_matter, outline_view(rendered.outline@)),
            profile,
        ),
{
    let h = chars_of(html.as_str());
    let mut rep = chars_of("<html lang=\"zh-CN\" data-theme=\"light\" data-export=\"");
    extend(&mut rep, &chars_of(profile.data_value()));
    extend(&mut rep, &chars_of("\">"));
    let h1 = replace_first_exec(&h, &chars_of("<html lang=\"zh-CN\" data-theme=\"light\">"), &rep);
    proof {
        lemma_find_from(h1@, "<title>"@, 0);
    }
    let has_title = match find_from_exec(&h1, &chars_of("<title>"), 0) {
        Some(_) => true,
        None => false,
    };
    let h2 = if has_title {
        h1
    } else {
        let title = export_title(rendered);
        let mut t = chars_of("<head>\n<title>");
        push_attr_escaped(&mut t, &chars_of(title.as_str()));
        extend(&mut t, &chars_of("</title>"));
        replace_first_exec(&h1, &chars_of("<head>"), &t)
    };
    let mut css = chars_of("\n");
    extend(&mut css, &chars_of(profile.css().as_str()));
    extend(&mut css, &chars_of("\n</style>"));
    let h3 = replace_first_exec(&h2, &chars_of("</style>"), &css);
    let h3s = string_from(&h3);
    match profile {
        ExportProfile::Pandoc => strip_preview_script(h3s.as_str()),
        _ => h3s,
    }
}

/// The main body in a minimal page without styles or scripts.
pub open spec fn plain_page(html: Seq<char>) -> Seq<char> {
    PLAIN_HEAD@ + main_body(html) + PLAIN_TAIL@
}

pub const PLAIN_HEAD: &'static str = "<!DOCTYPE html><html lang=\"zh-CN\"><head><meta charset=\"UTF-8\"><title>Export</title></head><body>";

pub const PLAIN_TAIL: &'static str = "</body></html>";

/// The main body of a page in a minimal page (`plain_page`).
pub fn plain_html(html: &str) -> (r: String)
    ensures
        r@ == plain_page(html@),
{
    let mut v = chars_of(PLAIN_HEAD);
    extend(&mut v, &main_body_chars(&chars_of(html)));
    extend(&mut v, &chars_of(PLAIN_TAIL));
    string_from(&v)
}

/// Standalone conversion from `source` to `target`,
/// resources looked up in `resource_dir`, slides split at level two for
/// RevealJS.
pub open spec fn pandoc_args(
    input: Seq<char>,
    output: Seq<char>,
    source: Seq<char>,
    target: Seq<char>,
    f: ExportFormat,
    resource_dir: Seq<char>,
) -> Seq<Seq<char>> {
    let base = seq![
        input,
        "--standalone"@,
        "-f"@,
        source,
        "-t"@,
        target,
        "-o"@,
        output,
        "--resource-path="@ + resource_dir,
    ];
    if f is RevealJs {
        base.push("--slide-level=2"@)
    } else {
        base
    }
}

/// The arguments of a Pandoc run.
pub fn build_pandoc_args(
    input: &str,
    output: &str,
    source: &str,
    target: &str,
    format: ExportFormat,
    resource_dir: &str,
) -> (r: Vec<String>)
    ensures
        strings_view(r@) == pandoc_args(input@, output@, source@, target@, format, resource_dir@),
{
    let mut args: Vec<String> = Vec::new();
    args.push(string_from(&chars_of(input)));
    args.push(string_from(&chars_of("--standalone")));
    args.push(string_from(&chars_of("-f")));
    args.push(string_from(&chars_of(source)));
    args.push(string_from(&chars_of("-t")));
    args.push(string_from(&chars_of(target)));
    args.push(string_from(&chars_of("-o")));
    args.push(string_from(&chars_of(output)));
    let mut rp = chars_of("--resource-path=");
    extend(&mut rp, &chars_of(resource_dir));
    args.push(string_from(&rp));
    if let ExportFormat::RevealJs = format {
        args.push(string_from(&chars_of("--slide-level=2")));
    }
    assert(strings_view(args@) =~= pandoc_args(
        input@,
        output@,
        source@,
        target@,
        format,
        resource_dir@,
    ));
    args
}

/// Nothing for blank output, else `: ` and the trimmed
/// output, cut after 600 characters with `...`.
pub open spec fn stderr_note(message: Seq<char>) -> Seq<char> {
    let m = trim(message);
    if m.len() == 0 {
        Seq::empty()
    } else if m.len() > 600 {
        ": "@ + m.take(600) + "..."@
    } else {
        ": "@ + m
    }
}

/// The note appended to a failure message from a command's error output.
pub fn command_stderr(stderr: &[u8]) -> (r: String)
    ensures
        r@ == stderr_note(lossy_text(stderr@)),
{
    let text = string_from_utf8_lossy(stderr);
    let m = trim_str(&chars_of(text.as_str()));
    if m.len() == 0 {
        return String::new();
    }
    let mut out = chars_of(": ");
    if m.len() > 600 {
        extend_range(&mut out, &m, 0, 600);
        extend(&mut out, &chars_of("..."));
        assert(out@ =~= ": "@ + m@.take(600) + "..."@);
    } else {
        extend(&mut out, &m);
    }
    string_from(&out)
}

/// The executable inside a macOS application bundle, by the bundle's name.
pub open spec fn bundle_executable(path: Seq<char>) -> Option<Seq<char>> {
    match file_name(path) {
        None => None,
        Some(name) => {
            let exe = if contains(name, "Google Chrome"@) {
                Some("Google Chrome"@)
            } else if contains(name, "Chromium"@) {
                Some("Chromium"@)
            } else if contains(name, "Microsoft Edge"@) {
                Some("Microsoft Edge"@)
            } else {
                None
            };
            match exe {
                None => None,
                Some(e) => Some(join(join(join(path, "Contents"@), "MacOS"@), e)),
            }
        },
    }
}

/// The bundle part of `chromium_executable`: where the browser binary of a
/// Chrome, Chromium or Edge bundle lies. Whether it exists is checked by
/// the caller.
pub fn chromium_bundle_executable(path: &str) -> (r: Option<String>)
    ensures
        match r {
            Some(e) => bundle_executable(path@) == Some(e@),
            None => bundle_executable(path@) is None,
        },
{
    let p = chars_of(path);
    let name = match file_name_range(&p) {
        None => return None,
        Some((a, b)) => slice_to_vec(&p, a, b),
    };
    let exe = if find_from_exec(&name, &chars_of("Google Chrome"), 0).is_some() {
        "Google Chrome"
    } else if find_from_exec(&name, &chars_of("Chromium"), 0).is_some() {
        "Chromium"
    } else if find_from_exec(&name, &chars_of("Microsoft Edge"), 0).is_some() {
        "Microsoft Edge"
    } else {
        return None;
    };
    let a = path_join(path, "Contents");
    let b = path_join(a.as_str(), "MacOS");
    Some(path_join(b.as_str(), exe))
}

/// `docProps/core.xml`: the export title as the document title.
pub open spec fn core_xml(title: Seq<char>) -> Seq<char> {
    CORE_XML_HEAD@ + xml_escaped(title) + CORE_XML_TAIL@
}

pub const CORE_XML_HEAD: &'static str = "<?xml version=\"1.0\" encoding=\"UTF-8\" standalone=\"yes\"?>\n<cp:coreProperties xmlns:cp=\"http://schemas.openxmlformats.org/package/2006/metadata/core-properties\" xmlns:dc=\"http://purl.org/dc/elements/1.1/\" xmlns:dcterms=\"http://purl.org/dc/terms/\" xmlns:dcmitype=\"http://purl.org/dc/dcmitype/\" xmlns:xsi=\"http://www.w3.org/2001/XMLSchema-instance\">\n  <dc:title>";

pub const CORE_XML_TAIL: &'static str = "</dc:title>\n  <dc:creator>MoraNote</dc:creator>\n  <cp:lastModifiedBy>MoraNote</cp:lastModifiedBy>\n</cp:coreProperties>";

/// The Word core properties part, titled after the document.
pub fn docx_core_xml(rendered: &RenderedDocument) -> (r: String)
    ensures
        r@ == core_xml(title_of(rendered.front_matter, outline_view(rendered.outline@))),
{
    let title = export_title(rendered);
    let mut v = chars_of(CORE_XML_HEAD);
    push_xml_escaped(&mut v, &chars_of(title.as_str()));
    extend(&mut v, &chars_of(CORE_XML_TAIL));
    string_from(&v)
}

/// The rendered page in export form under a profile, with
/// its assets packaged under `package` when given (the copies that needs
/// come back), else with local references as `file://` URLs.
pub open spec fn export_page(
    rendered: RenderedDocument,
    base: Option<Seq<char>>,
    p: ExportProfile,
    package: Option<Seq<char>>,
    facts: Seq<PathFacts>,
    canonical_base: Option<Seq<char>>,
) -> (Seq<char>, Seq<(Seq<char>, Seq<char>)>) {
    let title = title_of(rendered.front_matter, outline_view(rendered.outline@));
    match package {
        Some(prefix) => {
            let (h, c) = export_html_packaged(rendered.html@, base, prefix, facts, canonical_base);
            (profiled(h, title, p), c)
        },
        None => (profiled(export_html_with_base(rendered.html@, base, facts), title, p), Seq::empty()),
    }
}

/// The exported HTML of a rendered document under a profile.
pub fn export_html(
    rendered: &RenderedDocument,
    base_dir: Option<&str>,
    profile: ExportProfile,
    package: Option<&str>,
    facts: &[PathFacts],
    canonical_base: Option<&str>,
) -> (r: (String, Vec<(String, String)>))
    ensures
        (r.0@, r.1@.map_values(|c: (String, String)| (c.0@, c.1@))) == export_page(
            *rendered,
            match base_dir {
                Some(b) => Some(b@),
                None => None,
            },
            profile,
            match package {
                Some(q) => Some(q@),
                None => None,
            },
            facts@,
            match canonical_base {
                Some(b) => Some(b@),
                None => None,
            },
        ),
{
    match package {
        Some(prefix) => {
            let (h, copies) = html_for_export_with_asset_package(
                rendered.html.as_str(),
                base_dir,
                prefix,
                facts,
                canonical_base,
            );
            (apply_export_profile(h, rendered, profile), copies)
        },
        None => {
            let h = html_for_export_with_base(rendered.html.as_str(), base_dir, facts);
            let none: Vec<(String, String)> = Vec::new();
            assert(none@.map_values(|c: (String, String)| (c.0@, c.1@)) =~= Seq::<
                (Seq<char>, Seq<char>),
            >::empty());
            (apply_export_profile(h, rendered, profile), none)
        },
    }
}

/// Where a program named `binary` would be found on the search path: each
/// folder of it joined with the name, in order (`find_on_path` takes the
/// first that is a file).
pub open spec fn on_path(dirs: Seq<Seq<char>>, binary: Seq<char>) -> Seq<Seq<char>> {
    dirs.map_values(|d: Seq<char>| join(d, binary))
}

/// The places to look for `binary`, in order.
pub fn path_candidates(dirs: &[String], binary: &str) -> (r: Vec<String>)
    ensures
        strings_view(r@) == on_path(strings_view(dirs@), binary@),
{
    let mut out: Vec<String> = Vec::new();
    let mut i: usize = 0;
    while i < dirs.len()
        invariant
            i <= dirs@.len(),
            out@.len() == i,
            forall|k: int| 0 <= k < i ==> (#[trigger] out@[k])@ == join(dirs@[k]@, binary@),
        decreases dirs@.len() - i,
    {
        out.push(path_join(dirs[i].as_str(), binary));
        i += 1;
    }
    assert(strings_view(out@) =~= on_path(strings_view(dirs@), binary@));
    out
}

/// The path itself, then the browser binary inside
/// it when it is an application bundle; the first that is a file is used.
pub open spec fn executable_candidates(path: Seq<char>) -> Seq<Seq<char>> {
    seq![path] + match bundle_executable(path) {
        Some(e) => seq![e],
        None => Seq::empty(),
    }
}

fn push_executable_candidates(out: &mut Vec<String>, path: &str)
    ensures
        strings_view(final(out)@) == strings_view(old(out)@) + executable_candidates(path@),
{
    let ghost before = strings_view(out@);
    out.push(string_from(&chars_of(path)));
    match chromium_bundle_executable(path) {
        Some(e) => {
            out.push(e);
        },
        None => {},
    }
    assert(strings_view(out@) =~= before + executable_candidates(path@));
}

fn push_all(out: &mut Vec<String>, more: Vec<String>)
    ensures
        strings_view(final(out)@) == strings_view(old(out)@) + strings_view(more@),
{
    let ghost before = strings_view(out@);
    let mut i: usize = 0;
    while i < more.len()
        invariant
            i <= more@.len(),
            strings_view(out@) == before + strings_view(more@).take(i as int),
        decreases more@.len() - i,
    {
        let ghost b = strings_view(out@);
        out.push(more[i].clone());
        assert(strings_view(out@) =~= b.push(more@[i as int]@));
        assert(strings_view(more@).take(i + 1) =~= strings_view(more@).take(i as int).push(
            more@[i as int]@,
        ));
        i += 1;
    }
    assert(strings_view(more@).take(i as int) =~= strings_view(more@));
}

/// The places a Chromium-based browser is looked for,
/// in order; the first that is a file is used. The configured path, the
/// usual program names on the search path, the system application
/// bundles, then those in the home folder.
pub open spec fn chromium_candidate_list(
    configured: Option<Seq<char>>,
    dirs: Seq<Seq<char>>,
    home: Option<Seq<char>>,
) -> Seq<Seq<char>> {
    (match configured {
        Some(c) => executable_candidates(c),
        None => Seq::empty(),
    }) + on_path(dirs, "chromium"@) + on_path(dirs, "google-chrome"@) + on_path(dirs, "chrome"@)
        + on_path(dirs, "msedge"@) + executable_candidates("/Applications/Google Chrome.app"@)
        + executable_candidates("/Applications/Chromium.app"@) + executable_candidates(
        "/Applications/Microsoft Edge.app"@,
    ) + match home {
        Some(h) => executable_candidates(join(h, "Applications/Google Chrome.app"@))
            + executable_candidates(join(h, "Applications/Chromium.app"@))
            + executable_candidates(join(h, "Applications/Microsoft Edge.app"@)),
        None => Seq::empty(),
    }
}

/// The candidates in order, given the configured path,
/// the folders of the search path and the home folder.
pub fn chromium_candidates(configured: Option<&str>, dirs: &[String], home: Option<&str>) -> (r:
    Vec<String>)
    ensures
        strings_view(r@) == chromium_candidate_list(
            match configured {
                Some(c) => Some(c@),
                None => None,
            },
            strings_view(dirs@),
            match home {
                Some(h) => Some(h@),
                None => None,
            },
        ),
{
    let mut out: Vec<String> = Vec::new();
    match configured {
        Some(c) => push_executable_candidates(&mut out, c),
        None => {},
    }
    push_all(&mut out, path_candidates(dirs, "chromium"));
    push_all(&mut out, path_candidates(dirs, "google-chrome"));
    push_all(&mut out, path_candidates(dirs, "chrome"));
    push_all(&mut out, path_candidates(dirs, "msedge"));
    push_executable_candidates(&mut out, "/Applications/Google Chrome.app");
    push_executable_candidates(&mut out, "/Applications/Chromium.app");
    push_executable_candidates(&mut out, "/Applications/Microsoft Edge.app");
    match home {
        Some(h) => {
            push_executable_candidates(&mut out, path_join(h, "Applications/Google Chrome.app").as_str());
            push_executable_candidates(&mut out, path_join(h, "Applications/Chromium.app").as_str());
            push_executable_candidates(&mut out, path_join(h, "Applications/Microsoft Edge.app").as_str());
        },
        None => {},
    }
    let ghost c = match configured {
        Some(c) => Some(c@),
        None => None::<Seq<char>>,
    };
    let ghost h = match home {
        Some(h) => Some(h@),
        None => None::<Seq<char>>,
    };
    assert(strings_view(out@) =~= chromium_candidate_list(c, strings_view(dirs@), h));
    out
}

/// Why an export could not start for want of a tool.
pub open spec fn missing_tool_text(f: ExportFormat) -> Seq<char> {
    match format_route(f) {
        ExportRoute::ChromiumPdf => "需要配置 Chromium/Chrome 才能按预览效果导出 PDF"@,
        ExportRoute::ChromiumImage => "需要配置 Chromium/Chrome 才能按预览效果导出图片"@,
        _ => "需要配置 Pandoc 才能导出 "@ + format_label(f),
    }
}

/// The error of an export that finds no converter program.
pub fn missing_tool_message(format: ExportFormat) -> (r: String)
    ensures
        r@ == missing_tool_text(format),
{
    match format.route() {
        ExportRoute::ChromiumPdf => string_from(&chars_of("需要配置 Chromium/Chrome 才能按预览效果导出 PDF")),
        ExportRoute::ChromiumImage => string_from(&chars_of("需要配置 Chromium/Chrome 才能按预览效果导出图片")),
        _ => {
            let mut m = chars_of("需要配置 Pandoc 才能导出 ");
            extend(&mut m, &chars_of(format.label()));
            string_from(&m)
        },
    }
}

/// The error of a Pandoc export to a format Pandoc has no writer for.
pub fn no_pandoc_target_message(format: ExportFormat) -> (r: String)
    ensures
        r@ == "格式 "@ + format_label(format) + " 不支持 Pandoc 导出"@,
{
    let mut m = chars_of("格式 ");
    extend(&mut m, &chars_of(format.label()));
    extend(&mut m, &chars_of(" 不支持 Pandoc 导出"));
    string_from(&m)
}

/// The error of a converter run that timed out or failed, with the note
/// made of its error output; none when it succeeded.
pub open spec fn run_failure_text(f: ExportFormat, timed_out: bool, success: bool, note: Seq<
    char,
>) -> Option<Seq<char>> {
    if !timed_out && success {
        None
    } else {
        Some(
            match format_route(f) {
                ExportRoute::ChromiumPdf => if timed_out {
                    "Chromium PDF 导出超时，已停止等待"@ + note
                } else {
                    "Chromium PDF 导出失败"@ + note
                },
                ExportRoute::ChromiumImage => if timed_out {
                    "Chromium 图片导出超时，已停止等待"@ + note
                } else {
                    "Chromium 图片导出失败"@ + note
                },
                _ => if timed_out {
                    "Pandoc 导出超时，已停止等待: "@ + format_label(f) + note
                } else {
                    "Pandoc 导出失败: "@ + format_label(f) + note
                },
            },
        )
    }
}

/// The outcome checks of `export_with_pandoc` and the Chromium exports.
pub fn run_failure(format: ExportFormat, timed_out: bool, success: bool, stderr: &[u8]) -> (r:
    Option<String>)
    ensures
        opt_view(r) == run_failure_text(
            format,
            timed_out,
            success,
            stderr_note(lossy_text(stderr@)),
        ),
{
    if !timed_out && success {
        return None;
    }
    let note = command_stderr(stderr);
    let mut m = match format.route() {
        ExportRoute::ChromiumPdf => if timed_out {
            chars_of("Chromium PDF 导出超时，已停止等待")
        } else {
            chars_of("Chromium PDF 导出失败")
        },
        ExportRoute::ChromiumImage => if timed_out {
            chars_of("Chromium 图片导出超时，已停止等待")
        } else {
            chars_of("Chromium 图片导出失败")
        },
        _ => {
            let mut m = if timed_out {
                chars_of("Pandoc 导出超时，已停止等待: ")
            } else {
                chars_of("Pandoc 导出失败: ")
            };
            extend(&mut m, &chars_of(format.label()));
            m
        },
    };
    extend(&mut m, &chars_of(note.as_str()));
    Some(string_from(&m))
}

/// The words joined by single spaces.
pub open spec fn spaced(words: Seq<Seq<char>>) -> Seq<char>
    decreases words.len(),
{
    if words.len() == 0 {
        Seq::empty()
    } else if words.len() == 1 {
        words[0]
    } else {
        spaced(words.drop_last()) + " "@ + words.last()
    }
}

/// The command line an export reports: the program and its arguments for
/// Pandoc, the program and its mode for Chromium, the built-in Word
/// writer, or none for HTML.
pub open spec fn command_text(f: ExportFormat, program: Seq<char>, args: Seq<Seq<char>>) -> Option<
    Seq<char>,
> {
    match format_route(f) {
        ExportRoute::StyledHtml | ExportRoute::PlainHtml => None,
        ExportRoute::BuiltinDocx => Some("内置 Word 导出"@),
        ExportRoute::ChromiumPdf => Some(program + " --headless --print-to-pdf"@),
        ExportRoute::ChromiumImage => Some(program + " --headless --screenshot"@),
        ExportRoute::Pandoc => Some(program + " "@ + spaced(args)),
    }
}

/// The `command` of the `ExportResult`.
pub fn export_command(format: ExportFormat, program: &str, args: &[String]) -> (r: Option<String>)
    ensures
        opt_view(r) == command_text(format, program@, strings_view(args@)),
{
    match format.route() {
        ExportRoute::StyledHtml | ExportRoute::PlainHtml => None,
        ExportRoute::BuiltinDocx => Some(string_from(&chars_of("内置 Word 导出"))),
        ExportRoute::ChromiumPdf => {
            let mut m = chars_of(program);
            extend(&mut m, &chars_of(" --headless --print-to-pdf"));
            Some(string_from(&m))
        },
        ExportRoute::ChromiumImage => {
            let mut m = chars_of(program);
            extend(&mut m, &chars_of(" --headless --screenshot"));
            Some(string_from(&m))
        },
        ExportRoute::Pandoc => {
            let ghost all = strings_view(args@);
            let mut m = chars_of(program);
            extend(&mut m, &chars_of(" "));
            let ghost head = m@;
            let mut i: usize = 0;
            assert(all.take(0) =~= Seq::<Seq<char>>::empty());
            assert(m@ =~= head + spaced(all.take(0)));
            while i < args.len()
                invariant
                    i <= args@.len(),
                    all == strings_view(args@),
                    m@ == head + spaced(all.take(i as int)),
                decreases args@.len() - i,
            {
                assert(all.take(i + 1).drop_last() =~= all.take(i as int));
                assert(all.take(i + 1).last() == args@[i as int]@);
                if i > 0 {
                    extend(&mut m, &chars_of(" "));
                }
                extend(&mut m, &chars_of(args[i].as_str()));
                proof {
                    if i == 0 {
                        assert(all.take(1)[0] == args@[0]@);
                    }
                }
                assert(m@ =~= head + spaced(all.take(i + 1)));
                i += 1;
            }
            assert(all.take(i as int) =~= all);
            Some(string_from(&m))
        },
    }
}

/// The arguments of the headless Chromium run that prints a page to PDF.
pub open spec fn pdf_args(output: Seq<char>, work_dir: Seq<char>, page_url: Seq<char>) -> Seq<
    Seq<char>,
> {
    seq![
        "--headless"@,
        "--disable-gpu"@,
        "--disable-dev-shm-usage"@,
        "--allow-file-access-from-files"@,
        "--print-to-pdf-no-header"@,
        "--no-pdf-header-footer"@,
        "--virtual-time-budget=1000"@,
        "--user-data-dir="@ + join(work_dir, "chrome-profile"@),
        "--print-to-pdf="@ + output,
        page_url,
    ]
}

/// The arguments of its Chromium run.
pub fn chromium_pdf_args(output: &str, work_dir: &str, page_url: &str) -> (r: Vec<String>)
    ensures
        strings_view(r@) == pdf_args(output@, work_dir@, page_url@),
{
    let mut args: Vec<String> = Vec::new();
    args.push(string_from(&chars_of("--headless")));
    args.push(string_from(&chars_of("--disable-gpu")));
    args.push(string_from(&chars_of("--disable-dev-shm-usage")));
    args.push(string_from(&chars_of("--allow-file-access-from-files")));
    args.push(string_from(&chars_of("--print-to-pdf-no-header")));
    args.push(string_from(&chars_of("--no-pdf-header-footer")));
    args.push(string_from(&chars_of("--virtual-time-budget=1000")));
    let mut u = chars_of("--user-data-dir=");
    extend(&mut u, &chars_of(path_join(work_dir, "chrome-profile").as_str()));
    args.push(string_from(&u));
    let mut p = chars_of("--print-to-pdf=");
    extend(&mut p, &chars_of(output));
    args.push(string_from(&p));
    args.push(string_from(&chars_of(page_url)));
    assert(strings_view(args@) =~= pdf_args(output@, work_dir@, page_url@));
    args
}

/// Where the screenshot of an image export goes: a PNG in the work folder
/// that is then converted for JPEG, else the output itself.
pub open spec fn screenshot_target(f: ExportFormat, output: Seq<char>, work_dir: Seq<char>) -> Seq<
    char,
> {
    if f is Jpeg {
        join(work_dir, "screenshot.png"@)
    } else {
        output
    }
}

/// The arguments of the headless Chromium run that takes a screenshot.
pub open spec fn image_args(shot: Seq<char>, work_dir: Seq<char>, page_url: Seq<char>) -> Seq<
    Seq<char>,
> {
    seq![
        "--headless"@,
        "--disable-gpu"@,
        "--disable-dev-shm-usage"@,
        "--allow-file-access-from-files"@,
        "--hide-scrollbars"@,
        "--run-all-compositor-stages-before-draw"@,
        "--virtual-time-budget=1000"@,
        "--window-size=1200,1600"@,
        "--user-data-dir="@ + join(work_dir, "chrome-profile"@),
        "--screenshot="@ + shot,
        page_url,
    ]
}

/// Where the screenshot goes and the
/// arguments of the Chromium run.
pub fn chromium_image_args(format: ExportFormat, output: &str, work_dir: &str, page_url: &str) -> (r:
    (String, Vec<String>))
    ensures
        r.0@ == screenshot_target(format, output@, work_dir@),
        strings_view(r.1@) == image_args(r.0@, work_dir@, page_url@),
{
    let shot = if let ExportFormat::Jpeg = format {
        path_join(work_dir, "screenshot.png")
    } else {
        string_from(&chars_of(output))
    };
    let mut args: Vec<String> = Vec::new();
    args.push(string_from(&chars_of("--headless")));
    args.push(string_from(&chars_of("--disable-gpu")));
    args.push(string_from(&chars_of("--disable-dev-shm-usage")));
    args.push(string_from(&chars_of("--allow-file-access-from-files")));
    args.push(string_from(&chars_of("--hide-scrollbars")));
    args.push(string_from(&chars_of("--run-all-compositor-stages-before-draw")));
    args.push(string_from(&chars_of("--virtual-time-budget=1000")));
    args.push(string_from(&chars_of("--window-size=1200,1600")));
    let mut u = chars_of("--user-data-dir=");
    extend(&mut u, &chars_of(path_join(work_dir, "chrome-profile").as_str()));
    args.push(string_from(&u));
    let mut s = chars_of("--screenshot=");
    extend(&mut s, &chars_of(shot.as_str()));
    args.push(string_from(&s));
    args.push(string_from(&chars_of(page_url)));
    assert(strings_view(args@) =~= image_args(shot@, work_dir@, page_url@));
    (shot, args)
}

/// The files of a Word package, in the order they are written: content
/// types, package relations, styles, settings, application and core
/// properties, then the document.
pub open spec fn docx_parts(title: Seq<char>, blocks: Seq<(DocxStyle, Seq<char>)>) -> Seq<
    (Seq<char>, Seq<char>),
> {
    seq![
        ("[Content_Types].xml"@, CONTENT_TYPES_XML@),
        ("_rels/.rels"@, PACKAGE_RELS_XML@),
        ("word/styles.xml"@, DOCX_STYLES_XML@),
        ("word/settings.xml"@, DOCX_SETTINGS_XML@),
        ("docProps/app.xml"@, DOCX_APP_XML@),
        ("docProps/core.xml"@, core_xml(title)),
        ("word/document.xml"@, document_xml(blocks)),
    ]
}

/// The views of (name, content) pairs.
pub open spec fn pairs_view(v: Seq<(String, String)>) -> Seq<(Seq<char>, Seq<char>)> {
    v.map_values(|c: (String, String)| (c.0@, c.1@))
}

/// The files of the package (name, content) in the
/// order they go into the archive; writing the archive is left to the
/// caller.
pub fn docx_package(rendered: &RenderedDocument, blocks: &[DocxBlock]) -> (r: Vec<(String, String)>)
    ensures
        pairs_view(r@) == docx_parts(
            title_of(rendered.front_matter, outline_view(rendered.outline@)),
            blocks_view(blocks@),
        ),
{
    let mut parts: Vec<(String, String)> = Vec::new();
    parts.push((string_from(&chars_of("[Content_Types].xml")), string_from(&chars_of(CONTENT_TYPES_XML))));
    parts.push((string_from(&chars_of("_rels/.rels")), string_from(&chars_of(PACKAGE_RELS_XML))));
    parts.push((string_from(&chars_of("word/styles.xml")), string_from(&chars_of(DOCX_STYLES_XML))));
    parts.push((string_from(&chars_of("word/settings.xml")), string_from(&chars_of(DOCX_SETTINGS_XML))));
    parts.push((string_from(&chars_of("docProps/app.xml")), string_from(&chars_of(DOCX_APP_XML))));
    parts.push((string_from(&chars_of("docProps/core.xml")), docx_core_xml(rendered)));
    parts.push((string_from(&chars_of("word/document.xml")), docx_document_xml(blocks)));
    assert(pairs_view(parts@) =~= docx_parts(
        title_of(rendered.front_matter, outline_view(rendered.outline@)),
        blocks_view(blocks@),
    ));
    parts
}

/// The page in the Pandoc profile, its paragraphs,
/// and the files of the Word package made of them.
pub open spec fn builtin_docx_parts(
    rendered: RenderedDocument,
    base: Option<Seq<char>>,
    facts: Seq<PathFacts>,
) -> Seq<(Seq<char>, Seq<char>)> {
    let html = export_page(rendered, base, ExportProfile::Pandoc, None, facts, None).0;
    docx_parts(
        title_of(rendered.front_matter, outline_view(rendered.outline@)),
        docx_blocks(html),
    )
}

/// `export_docx_builtin`, up to writing the archive.
pub fn export_docx_builtin(rendered: &RenderedDocument, base_dir: Option<&str>, facts: &[PathFacts]) -> (r:
    Vec<(String, String)>)
    ensures
        pairs_view(r@) == builtin_docx_parts(
            *rendered,
            match base_dir {
                Some(b) => Some(b@),
                None => None,
            },
            facts@,
        ),
{
    let (html, _) = export_html(rendered, base_dir, ExportProfile::Pandoc, None, facts, None);
    let blocks = docx_blocks_from_html(html.as_str());
    docx_package(rendered, &blocks)
}

/// The work folder layout of a preview export: the page and its asset
/// folder (with the URL prefix the page uses for it).
pub fn preview_export_layout(work_dir: &str) -> (r: (String, String, String))
    ensures
        r.0@ == join(work_dir@, "preview.html"@),
        r.1@ == join(work_dir@, "preview.assets"@),
        r.2@ == "preview.assets"@,
{
    (
        path_join(work_dir, "preview.html"),
        path_join(work_dir, "preview.assets"),
        string_from(&chars_of("preview.assets")),
    )
}

} // verus!
