//! The preview document and its exported forms.
use vstd::prelude::*;
use crate::assets::{MORANDI_ADAPTER_CSS, PREVIEW_RUNTIME_SCRIPT_BODY, SELECTION_SCRIPT_BODY};
use crate::model::{DocumentStats, OutlineItem, outline_view};
use crate::paths::{
    file_name, join, parent, path_file_name, path_join, path_parent, path_starts_with,
    starts_with_path,
};
use crate::settings::{opt_view, strings_view};
use crate::preview::front_matter::{FrontMatter, body_text, front_matter_value, split_front_matter};
use crate::preview::outline::{
    compute_stats, extract_outline, inject_heading_ids, injected, outline_of, stats_of,
};
use crate::preview::urls::{
    PathFacts, copies_from, file_urls_rewritten, packaged_copy_fn, packaged_text_fn,
    rewrite_attribute_urls, rewrite_from, rewrite_packaged_attribute_urls,
};
use crate::text::{
    chars_of, extend, find, find_from, find_from_exec, lemma_find_from, matches_at,
    matches_at_exec, replace_all, replace_all_exec, slice_to_vec, string_from, trim_start_char,
    trim_start_char_exec, starts_with, contains,
};

verus! {

/// Where the preview serves theme files from.
pub const THEME_URL_ROOT: &'static str = "mdres://localhost/__theme/morandigarden/";

/// The request path prefix of theme files.
pub const THEME_PATH_PREFIX: &'static str = "__theme/morandigarden/";

/// The folder name of the theme fonts in an export.
pub const MORANDI_EXPORT_FONT_DIR: &'static str = "morandigarden";

/// What to render: the Markdown source, the folder it lives in, and the
/// theme stylesheet (`morandigarden.css`) the preview is laid out with.
#[derive(Debug, Clone)]
pub struct RenderRequest {
    pub markdown: String,
    pub base_dir: Option<String>,
    pub theme_css: String,
}

/// A rendered document.
#[derive(Debug)]
pub struct RenderedDocument {
    pub html: String,
    pub outline: Vec<OutlineItem>,
    pub stats: DocumentStats,
    pub front_matter: FrontMatter,
}

/// The text of the theme's font URLs as the preview serves them.
pub open spec fn theme_font_url() -> Seq<char> {
    THEME_URL_ROOT@ + "morandigarden/"@
}

/// The theme stylesheet with its relative font URLs pointed
/// at the preview's theme root, then the adapter rules.
pub open spec fn preview_css_of(theme_css: Seq<char>) -> Seq<char> {
    replace_all(
        replace_all(theme_css, "url('./morandigarden/"@, "url('"@ + theme_font_url()),
        "url(\"./morandigarden/"@,
        "url(\""@ + theme_font_url(),
    ) + "\n"@ + MORANDI_ADAPTER_CSS@
}

/// The preview stylesheet made of the theme stylesheet (`preview_css_of`).
pub fn preview_css(theme_css: &str) -> (r: String)
    ensures
        r@ == preview_css_of(theme_css@),
{
    let css = chars_of(theme_css);
    let p1 = chars_of("url('./morandigarden/");
    let mut r1 = chars_of("url('");
    extend(&mut r1, &chars_of(THEME_URL_ROOT));
    extend(&mut r1, &chars_of("morandigarden/"));
    let p2 = chars_of("url(\"./morandigarden/");
    let mut r2 = chars_of("url(\"");
    extend(&mut r2, &chars_of(THEME_URL_ROOT));
    extend(&mut r2, &chars_of("morandigarden/"));
    proof {
        reveal_strlit("url('./morandigarden/");
        reveal_strlit("url(\"./morandigarden/");
    }
    let a = replace_all_exec(&css, &p1, &r1);
    let mut b = replace_all_exec(&a, &p2, &r2);
    extend(&mut b, &chars_of("\n"));
    extend(&mut b, &chars_of(MORANDI_ADAPTER_CSS));
    assert(r1@ =~= "url('"@ + theme_font_url());
    assert(r2@ =~= "url(\""@ + theme_font_url());
    string_from(&b)
}

/// The runtime, then the selection script.
pub open spec fn runtime_script() -> Seq<char> {
    PREVIEW_RUNTIME_SCRIPT_BODY@ + "\n"@ + SELECTION_SCRIPT_BODY@
}

/// The script the preview page runs (`runtime_script`).
pub fn preview_runtime_script() -> (r: String)
    ensures
        r@ == runtime_script(),
{
    let mut v = chars_of(PREVIEW_RUNTIME_SCRIPT_BODY);
    extend(&mut v, &chars_of("\n"));
    extend(&mut v, &chars_of(SELECTION_SCRIPT_BODY));
    string_from(&v)
}

pub const DOC_HEAD: &'static str = "<!DOCTYPE html>\n<html lang=\"zh-CN\" data-theme=\"light\">\n<head>\n<meta charset=\"UTF-8\">\n<meta name=\"viewport\" content=\"width=device-width, initial-scale=1.0\">\n<base href=\"mdres://localhost/\">\n<style>";

pub const DOC_BODY_OPEN: &'static str = "</style>\n</head>\n<body>\n<main id=\"content\" class=\"markdown-body\">";

pub const DOC_SCRIPT_OPEN: &'static str = "</main>\n<script>\n";

pub const DOC_TAIL: &'static str = "\n</script>\n</body>\n</html>";

/// The preview page around a body.
pub open spec fn document(body: Seq<char>, theme_css: Seq<char>) -> Seq<char> {
    DOC_HEAD@ + preview_css_of(theme_css) + DOC_BODY_OPEN@ + body + DOC_SCRIPT_OPEN@
        + runtime_script() + DOC_TAIL@
}

/// The preview page around a body (`document`).
pub fn wrap_document(body: &str, theme_css: &str) -> (r: String)
    ensures
        r@ == document(body@, theme_css@),
{
    let mut v = chars_of(DOC_HEAD);
    extend(&mut v, &chars_of(preview_css(theme_css).as_str()));
    extend(&mut v, &chars_of(DOC_BODY_OPEN));
    extend(&mut v, &chars_of(body));
    extend(&mut v, &chars_of(DOC_SCRIPT_OPEN));
    extend(&mut v, &chars_of(preview_runtime_script().as_str()));
    extend(&mut v, &chars_of(DOC_TAIL));
    string_from(&v)
}

/// The opening of the content element.
pub open spec fn main_open() -> Seq<char> {
    "<main id=\"content\" class=\"markdown-body\">"@
}

/// What stands between the first content opening and the
/// next `</main>` (to the end when unclosed; the whole input when there is
/// no content element).
pub open spec fn body_of(doc: Seq<char>) -> Seq<char> {
    match find(doc, main_open()) {
        None => doc,
        Some(s) => {
            let b = s + main_open().len();
            match find_from(doc, "</main>"@, b) {
                None => doc.subrange(b, doc.len() as int),
                Some(e) => doc.subrange(b, e),
            }
        },
    }
}

/// The body of a preview page (`body_of`).
pub fn extract_body(document: &str) -> (r: String)
    ensures
        r@ == body_of(document@),
{
    let d = chars_of(document);
    let open = chars_of("<main id=\"content\" class=\"markdown-body\">");
    let close = chars_of("</main>");
    proof {
        lemma_find_from(d@, open@, 0);
    }
    match find_from_exec(&d, &open, 0) {
        None => string_from(&d),
        Some(s) => {
            assert(matches_at(d@, s as int, open@));
            let n = d.len();
            assert(s + open.len() <= n);
            let b = s + open.len();
            proof {
                lemma_find_from(d@, close@, b as int);
            }
            match find_from_exec(&d, &close, b) {
                None => string_from(&slice_to_vec(&d, b, d.len())),
                Some(e) => {
                    assert(matches_at(d@, e as int, close@));
                    string_from(&slice_to_vec(&d, b, e))
                },
            }
        },
    }
}

/// The page up to and including the opening of the content element.
pub open spec fn page_head(theme_css: Seq<char>) -> Seq<char> {
    DOC_HEAD@ + preview_css_of(theme_css) + DOC_BODY_OPEN@
}

/// Whether the first content opening of the page is the one the page
/// itself writes, that is, the stylesheet does not hold one.
pub open spec fn head_marker_free(theme_css: Seq<char>) -> bool {
    find(page_head(theme_css), main_open()) == Some(
        page_head(theme_css).len() - main_open().len(),
    )
}

proof fn lemma_find_extends(x: Seq<char>, y: Seq<char>, p: Seq<char>, k: int)
    requires
        find(x, p) == Some(k),
    ensures
        find(x + y, p) == Some(k),
{
    lemma_find_from(x, p, 0);
    let v = x + y;
    assert(v.subrange(k, k + p.len()) =~= x.subrange(k, k + p.len()));
    assert forall|m: int| 0 <= m < k implies !matches_at(v, m, p) by {
        if matches_at(v, m, p) {
            assert(k + p.len() <= x.len());
            assert(v.subrange(m, m + p.len()) =~= x.subrange(m, m + p.len()));
            assert(matches_at(x, m, p));
        }
    }
    lemma_find_first_at(v, p, 0, k);
}

proof fn lemma_find_first_at(s: Seq<char>, p: Seq<char>, j: int, k: int)
    requires
        0 <= j <= k,
        matches_at(s, k, p),
        forall|m: int| j <= m < k ==> !matches_at(s, m, p),
    ensures
        find_from(s, p, j) == Some(k),
    decreases k - j,
{
    if j < k {
        lemma_find_first_at(s, p, j + 1, k);
    }
}

/// Law: the body of a page made of `body` is `body` again, when the
/// stylesheet holds no content opening and the body no `</main>`.
pub proof fn lemma_body_round_trip(body: Seq<char>, theme_css: Seq<char>)
    requires
        head_marker_free(theme_css),
        !contains(body, "</main>"@),
    ensures
        body_of(document(body, theme_css)) == body,
{
    reveal_strlit("</main>");
    reveal_strlit("</main>\n<script>\n");
    reveal_strlit("<main id=\"content\" class=\"markdown-body\">");
    let h = page_head(theme_css);
    let tail = DOC_SCRIPT_OPEN@ + runtime_script() + DOC_TAIL@;
    let v = document(body, theme_css);
    assert(v =~= h + (body + tail));
    lemma_find_extends(h, body + tail, main_open(), h.len() - main_open().len());
    let b = h.len() as int;
    let e = b + body.len();
    let p = "</main>"@;
    assert(p.len() == 7);
    assert(tail.subrange(0, 7) =~= p);
    assert(v.subrange(e, e + 7) =~= tail.subrange(0, 7));
    assert(matches_at(v, e, p));
    lemma_find_from(body, p, 0);
    assert forall|m: int| b <= m < e implies !matches_at(v, m, p) by {
        if matches_at(v, m, p) {
            if m + 7 <= e {
                assert(v.subrange(m, m + 7) =~= body.subrange(m - b, m - b + 7));
                assert(matches_at(body, m - b, p));
            } else {
                let k = e - m;
                assert(1 <= k <= 6);
                assert(v.subrange(m, m + 7)[k] == v[e]);
                assert(v[e] == tail[0]);
                assert(tail[0] == '<');
                assert(p[k] != '<');
            }
        }
    }
    lemma_find_first_at(v, p, b, e);
    assert(v.subrange(b, e) =~= body);
}

/// Law: the empty preview page is the page around its placeholder
/// paragraph, when the stylesheet holds no content opening.
pub proof fn lemma_preview_shell(theme_css: Seq<char>)
    requires
        head_marker_free(theme_css),
    ensures
        document(body_of(document("<p class=\"empty\">Preview is ready.</p>"@, theme_css)), theme_css)
            == document("<p class=\"empty\">Preview is ready.</p>"@, theme_css),
{
    reveal_strlit("<p class=\"empty\">Preview is ready.</p>");
    reveal_strlit("</main>");
    let lit = "<p class=\"empty\">Preview is ready.</p>"@;
    let p = "</main>"@;
    lemma_find_from(lit, p, 0);
    assert forall|k: int| 0 <= k implies !matches_at(lit, k, p) by {
        if matches_at(lit, k, p) {
            assert(lit.subrange(k, k + 7)[0] == lit[k]);
            assert(lit.subrange(k, k + 7)[2] == lit[k + 2]);
            assert(p[0] == '<' && p[2] == 'm');
        }
    }
    assert(!contains(lit, p));
    lemma_body_round_trip(lit, theme_css);
}

/// The empty preview page.
pub fn preview_shell(theme_css: &str) -> (r: String)
    ensures
        r@ == document(
            body_of(document("<p class=\"empty\">Preview is ready.</p>"@, theme_css@)),
            theme_css@,
        ),
{
    let empty = wrap_document("<p class=\"empty\">Preview is ready.</p>", theme_css);
    let body = extract_body(empty.as_str());
    wrap_document(body.as_str(), theme_css)
}

/// Whether the preview follows a link itself: `about:`, `mdres://` and
/// `file://` addresses stay in the preview, any other is opened outside.
pub fn in_app_navigation(url: &str) -> (r: bool)
    ensures
        r == (starts_with(url@, "about:"@) || starts_with(url@, "mdres://"@) || starts_with(
            url@,
            "file://"@,
        )),
{
    let u = chars_of(url);
    matches_at_exec(&u, 0, &chars_of("about:")) || matches_at_exec(&u, 0, &chars_of("mdres://"))
        || matches_at_exec(&u, 0, &chars_of("file://"))
}

/// The HTML that pulldown-cmark makes of a Markdown text with tables,
/// footnotes, strikethrough, task lists and heading attributes enabled.
pub uninterp spec fn cmark_html(markdown: Seq<char>) -> Seq<char>;

/// `pulldown_cmark::html::push_html` over a parser with
/// those extensions, into an empty string.
#[verifier::external_body]
fn markdown_to_html(markdown: &str) -> (r: String)
    ensures
        r@ == cmark_html(markdown@),
{
    let mut options = pulldown_cmark::Options::empty();
    options.insert(pulldown_cmark::Options::ENABLE_STRIKETHROUGH);
    options.insert(pulldown_cmark::Options::ENABLE_TABLES);
    options.insert(pulldown_cmark::Options::ENABLE_TASKLISTS);
    options.insert(pulldown_cmark::Options::ENABLE_FOOTNOTES);
    options.insert(pulldown_cmark::Options::ENABLE_HEADING_ATTRIBUTES);
    let parser = pulldown_cmark::Parser::new_ext(markdown, options);
    let mut html_output = String::new();
    pulldown_cmark::html::push_html(&mut html_output, parser);
    html_output
}

/// What a rendering gives for a document whose body converts to
/// The preview page around `body_html` with heading ids, the
/// outline and statistics of the body, and the front matter.
pub open spec fn rendered_from(
    r: RenderedDocument,
    markdown: Seq<char>,
    theme_css: Seq<char>,
    body_html: Seq<char>,
) -> bool {
    let body = body_text(markdown);
    &&& r.html@ == document(injected(body_html, outline_of(body)), theme_css)
    &&& outline_view(r.outline@) == outline_of(body)
    &&& (r.stats.words as nat, r.stats.chars as nat, r.stats.lines as nat,
        r.stats.reading_time_minutes as nat) == stats_of(body)
    &&& forall|k: Seq<char>| #[trigger] r.front_matter.value_of(k) == front_matter_value(markdown, k)
}

/// The rendering of `request` once its body has been converted to
/// The rendering of a request given the HTML of its Markdown body.
pub fn render_with_html(request: &RenderRequest, body_html: &str) -> (r: RenderedDocument)
    ensures
        rendered_from(r, request.markdown@, request.theme_css@, body_html@),
{
    let (front_matter, body) = split_front_matter(request.markdown.as_str());
    let outline = extract_outline(body.as_str());
    let stats = compute_stats(body.as_str());
    let with_ids = inject_heading_ids(body_html, &outline);
    let html = wrap_document(with_ids.as_str(), request.theme_css.as_str());
    RenderedDocument { html, outline, stats, front_matter }
}

/// The body of a request's Markdown, once its front matter is split off.
pub open spec fn request_body(request: RenderRequest) -> Seq<char> {
    body_text(request.markdown@)
}

/// The body after the front matter goes through
/// pulldown-cmark, and the rest is `render_with_html`.
pub fn render_markdown(request: RenderRequest) -> (r: RenderedDocument)
    ensures
        rendered_from(r, request.markdown@, request.theme_css@, cmark_html(request_body(request))),
{
    let (_, body) = split_front_matter(request.markdown.as_str());
    let html_body = markdown_to_html(body.as_str());
    render_with_html(&request, html_body.as_str())
}

/// The base tag of the preview, with its newline.
pub open spec fn base_tag_line() -> Seq<char> {
    "<base href=\"mdres://localhost/\">\n"@
}

/// The first two export steps: font URLs of the theme moved under
/// `font_prefix`, and the preview base tag removed.
pub open spec fn export_prepared(html: Seq<char>, font_prefix: Seq<char>) -> Seq<char> {
    replace_all(replace_all(html, theme_font_url(), font_prefix), base_tag_line(), Seq::empty())
}

fn export_prepared_exec(html: &str, font_prefix: &[char]) -> (r: Vec<char>)
    ensures
        r@ == export_prepared(html@, font_prefix@),
{
    let h = chars_of(html);
    let mut root = chars_of(THEME_URL_ROOT);
    extend(&mut root, &chars_of("morandigarden/"));
    proof {
        reveal_strlit("mdres://localhost/__theme/morandigarden/");
        reveal_strlit("<base href=\"mdres://localhost/\">\n");
    }
    assert(root@.len() > 0);
    let a = replace_all_exec(&h, &root, font_prefix);
    let base = chars_of("<base href=\"mdres://localhost/\">\n");
    let empty: Vec<char> = Vec::new();
    replace_all_exec(&a, &base, &empty)
}

/// The page prepared for export, with theme
/// fonts under `morandigarden/` and, given a base folder, local `src` and
/// then `href` references as `file://` URLs.
pub open spec fn export_html_with_base(
    html: Seq<char>,
    base: Option<Seq<char>>,
    facts: Seq<PathFacts>,
) -> Seq<char> {
    let prepared = export_prepared(html, MORANDI_EXPORT_FONT_DIR@ + "/"@);
    match base {
        None => prepared,
        Some(b) => file_urls_rewritten(prepared, b, facts),
    }
}

/// `html_for_export_with_base`; what is known of the referenced paths
/// (whether each is a folder) is read by the caller.
pub fn html_for_export_with_base(html: &str, base_dir: Option<&str>, facts: &[PathFacts]) -> (r: String)
    ensures
        r@ == export_html_with_base(
            html@,
            match base_dir {
                Some(b) => Some(b@),
                None => None,
            },
            facts@,
        ),
{
    let mut prefix = chars_of(MORANDI_EXPORT_FONT_DIR);
    extend(&mut prefix, &chars_of("/"));
    let prepared = export_prepared_exec(html, &prefix);
    match base_dir {
        None => string_from(&prepared),
        Some(b) => {
            let src = chars_of("src=\"");
            let href = chars_of("href=\"");
            proof {
                reveal_strlit("src=\"");
                reveal_strlit("href=\"");
            }
            let once = rewrite_attribute_urls(&prepared, &src, b, facts);
            let twice = rewrite_attribute_urls(&once, &href, b, facts);
            string_from(&twice)
        },
    }
}

/// The page prepared for export without a base folder.
pub fn html_for_export(html: &str) -> (r: String)
    ensures
        r@ == export_html_with_base(html@, None, Seq::empty()),
{
    let none: Vec<PathFacts> = Vec::new();
    let r = html_for_export_with_base(html, None, &none);
    assert(none@ =~= Seq::<PathFacts>::empty());
    r
}

/// The page prepared for export with
/// theme fonts under `prefix/morandigarden/` and, given a base folder, media
/// references packaged under `prefix`; with the copies (source, target) that
/// packaging needs, targets inside `asset_dir`.
pub open spec fn export_html_packaged(
    html: Seq<char>,
    base: Option<Seq<char>>,
    prefix: Seq<char>,
    facts: Seq<PathFacts>,
    canonical_base: Option<Seq<char>>,
) -> (Seq<char>, Seq<(Seq<char>, Seq<char>)>) {
    let prepared = export_prepared(html, prefix + "/"@ + MORANDI_EXPORT_FONT_DIR@ + "/"@);
    match base {
        None => (prepared, Seq::empty()),
        Some(b) => {
            let f = packaged_text_fn(b, prefix, facts, canonical_base);
            let g = packaged_copy_fn(b, prefix, facts, canonical_base);
            let once = rewrite_from(prepared, "src=\""@, 0, f);
            (
                rewrite_from(once, "href=\""@, 0, f),
                copies_from(prepared, "src=\""@, 0, g) + copies_from(once, "href=\""@, 0, g),
            )
        },
    }
}

/// `html_for_export_with_asset_package`. The copies come back as (source,
/// path inside the asset folder) and are made by the caller, as is the
/// reading of the facts about the referenced paths.
pub fn html_for_export_with_asset_package(
    html: &str,
    base_dir: Option<&str>,
    asset_url_prefix: &str,
    facts: &[PathFacts],
    canonical_base: Option<&str>,
) -> (r: (String, Vec<(String, String)>))
    ensures
        (r.0@, r.1@.map_values(|c: (String, String)| (c.0@, c.1@))) == export_html_packaged(
            html@,
            match base_dir {
                Some(b) => Some(b@),
                None => None,
            },
            asset_url_prefix@,
            facts@,
            match canonical_base {
                Some(b) => Some(b@),
                None => None,
            },
        ),
{
    let mut prefix = chars_of(asset_url_prefix);
    extend(&mut prefix, &chars_of("/"));
    extend(&mut prefix, &chars_of(MORANDI_EXPORT_FONT_DIR));
    extend(&mut prefix, &chars_of("/"));
    let prepared = export_prepared_exec(html, &prefix);
    match base_dir {
        None => {
            let jobs: Vec<(String, String)> = Vec::new();
            assert(jobs@.map_values(|c: (String, String)| (c.0@, c.1@)) =~= Seq::<
                (Seq<char>, Seq<char>),
            >::empty());
            (string_from(&prepared), jobs)
        },
        Some(b) => {
            let src = chars_of("src=\"");
            let href = chars_of("href=\"");
            proof {
                reveal_strlit("src=\"");
                reveal_strlit("href=\"");
            }
            let (once, mut jobs) = rewrite_packaged_attribute_urls(
                &prepared,
                &src,
                b,
                asset_url_prefix,
                facts,
                canonical_base,
            );
            let (twice, more) = rewrite_packaged_attribute_urls(
                &once,
                &href,
                b,
                asset_url_prefix,
                facts,
                canonical_base,
            );
            let ghost j1 = jobs@;
            let mut k: usize = 0;
            while k < more.len()
                invariant
                    k <= more@.len(),
                    jobs@ == j1 + more@.take(k as int),
                decreases more@.len() - k,
            {
                jobs.push((more[k].0.clone(), more[k].1.clone()));
                assert(more@.take(k + 1) =~= more@.take(k as int).push(more@[k as int]));
                k += 1;
            }
            assert(more@.take(k as int) =~= more@);
            assert(jobs@.map_values(|c: (String, String)| (c.0@, c.1@)) =~= j1.map_values(
                |c: (String, String)| (c.0@, c.1@),
            ) + more@.map_values(|c: (String, String)| (c.0@, c.1@)));
            (string_from(&twice), jobs)
        },
    }
}

/// A lower-case hexadecimal digit.
pub open spec fn hex_lower(n: nat) -> char {
    if n < 10 {
        (0x30 + n) as char
    } else {
        (0x61 + n - 10) as char
    }
}

/// How a JSON string literal writes one character: a quote and a backslash
/// behind a backslash, the short escapes for backspace, form feed, line
/// feed, carriage return and tab, `\u00xx` with lower-case hex for the other
/// control characters below 0x20, and any other character as it is.
pub open spec fn json_escaped_char(c: char) -> Seq<char> {
    if c == '"' {
        seq!['\\', '"']
    } else if c == '\\' {
        seq!['\\', '\\']
    } else if c == '\u{8}' {
        seq!['\\', 'b']
    } else if c == '\u{c}' {
        seq!['\\', 'f']
    } else if c == '\n' {
        seq!['\\', 'n']
    } else if c == '\r' {
        seq!['\\', 'r']
    } else if c == '\t' {
        seq!['\\', 't']
    } else if (c as u32) < 0x20 {
        seq!['\\', 'u', '0', '0', hex_lower((c as u32 / 16) as nat), hex_lower((c as u32 % 16) as nat)]
    } else {
        seq![c]
    }
}

/// The characters of a string with each one escaped for JSON.
pub open spec fn json_escaped(s: Seq<char>) -> Seq<char>
    decreases s.len(),
{
    if s.len() == 0 {
        Seq::empty()
    } else {
        json_escaped(s.drop_last()) + json_escaped_char(s.last())
    }
}

/// The JSON text of a string: its escaped characters in double quotes.
pub open spec fn json_text(s: Seq<char>) -> Seq<char> {
    seq!['"'] + json_escaped(s) + seq!['"']
}

/// `serde_json::to_string` on a string slice: it does not fail, and writes
/// the string as a quoted JSON literal (`json_text`).
#[verifier::external_body]
pub(crate) fn json_string(s: &str) -> (r: Option<String>)
    ensures
        r is Some,
        r->0@ == json_text(s@),
{
    serde_json::to_string(s).ok()
}

/// The script that scrolls the preview to an anchor, given the anchor as
/// JSON (an empty string literal in its place when it could not be
/// written).
pub open spec fn scroll_call(anchor_json: Option<Seq<char>>) -> Seq<char> {
    "window.__scrollToAnchor("@ + match anchor_json {
        Some(j) => j,
        None => "\"\""@,
    } + ");"@
}

/// `scroll_script` once the anchor has been written as JSON.
pub fn scroll_script_with(anchor_json: Option<String>) -> (r: String)
    ensures
        r@ == scroll_call(opt_view(anchor_json)),
{
    let mut out = chars_of("window.__scrollToAnchor(");
    match anchor_json {
        Some(j) => extend(&mut out, &chars_of(j.as_str())),
        None => extend(&mut out, &chars_of("\"\"")),
    }
    extend(&mut out, &chars_of(");"));
    string_from(&out)
}

/// The script that scrolls the preview to `anchor`.
pub fn scroll_script(anchor: &str) -> (r: String)
    ensures
        r@ == scroll_call(Some(json_text(anchor@))),
{
    scroll_script_with(json_string(anchor))
}

/// The script that hands the preview a rendering, given
/// that rendering's payload as JSON text.
pub fn update_script(payload_json: &str) -> (r: String)
    ensures
        r@ == "window.__setRendered("@ + payload_json@ + ");"@,
{
    let mut out = chars_of("window.__setRendered(");
    extend(&mut out, &chars_of(payload_json));
    extend(&mut out, &chars_of(");"));
    string_from(&out)
}

/// The path a preview resource request names: the URI path without its
/// leading slashes.
pub open spec fn request_path(uri_path: Seq<char>) -> Seq<char> {
    trim_start_char(uri_path, '/')
}

/// `uri_path.trim_start_matches('/')` in `resource_response`.
pub fn resource_request_path(uri_path: &str) -> (r: String)
    ensures
        r@ == request_path(uri_path@),
{
    string_from(&trim_start_char_exec(&chars_of(uri_path), '/'))
}

/// The part of a request path inside the theme folder, when it names one.
pub open spec fn theme_relative(path: Seq<char>) -> Option<Seq<char>> {
    if starts_with(path, THEME_PATH_PREFIX@) {
        Some(path.skip(THEME_PATH_PREFIX@.len() as int))
    } else {
        None
    }
}

/// `uri_path.strip_prefix(THEME_PATH_PREFIX)` in `theme_asset_candidate`.
pub fn theme_relative_path(path: &str) -> (r: Option<String>)
    ensures
        opt_view(r) == theme_relative(path@),
{
    let p = chars_of(path);
    let pre = chars_of(THEME_PATH_PREFIX);
    if matches_at_exec(&p, 0, &pre) {
        let n = p.len();
        let m = pre.len();
        assert(m <= n);
        Some(string_from(&slice_to_vec(&p, m, n)))
    } else {
        None
    }
}

/// Whether a file may be served: its canonical path lies under the
/// canonical root, and it is a file.
pub open spec fn servable(root: Seq<char>, candidate: Seq<char>, is_file: bool) -> bool {
    path_starts_with(candidate, root) && is_file
}

/// `theme_asset_candidate`, given the canonical forms of the theme folder
/// and of the requested file (`None` where a path could not be
/// canonicalized) and whether the file is a regular file.
pub fn theme_asset_candidate(
    canonical_root: Option<&str>,
    canonical_candidate: Option<&str>,
    candidate_is_file: bool,
) -> (r: Option<String>)
    ensures
        opt_view(r) == match (canonical_root, canonical_candidate) {
            (Some(root), Some(c)) => if servable(root@, c@, candidate_is_file) {
                Some(c@)
            } else {
                None
            },
            _ => None,
        },
{
    match (canonical_root, canonical_candidate) {
        (Some(root), Some(c)) => {
            if starts_with_path(c, root) && candidate_is_file {
                Some(string_from(&chars_of(c)))
            } else {
                None
            }
        },
        _ => None,
    }
}

/// The answer to a preview resource request under the document folder.
#[derive(Debug)]
pub enum ResourceAnswer {
    /// Serve the file at this canonical path.
    Serve(String),
    /// Not found, with the reason the preview is told.
    Missing(&'static str),
    /// Refused: outside the root, or not a file.
    Denied,
}

/// The answer's value.
pub enum AnswerView {
    Serve(Seq<char>),
    Missing(Seq<char>),
    Denied,
}

pub open spec fn answer_view(a: ResourceAnswer) -> AnswerView {
    match a {
        ResourceAnswer::Serve(p) => AnswerView::Serve(p@),
        ResourceAnswer::Missing(m) => AnswerView::Missing(m@),
        ResourceAnswer::Denied => AnswerView::Denied,
    }
}

/// How a resource request under the document folder is answered: no root set, a root or
/// a resource that cannot be canonicalized, a resource outside the root or
/// not a file, or the file to serve.
pub open spec fn resource_decision(
    root_set: bool,
    canonical_root: Option<Seq<char>>,
    canonical_candidate: Option<Seq<char>>,
    candidate_is_file: bool,
) -> AnswerView {
    if !root_set {
        AnswerView::Missing("resource root not set"@)
    } else {
        match canonical_root {
            None => AnswerView::Missing("resource root missing"@),
            Some(root) => match canonical_candidate {
                None => AnswerView::Missing("resource missing"@),
                Some(c) => if servable(root, c, candidate_is_file) {
                    AnswerView::Serve(c)
                } else {
                    AnswerView::Denied
                },
            },
        }
    }
}

/// The decisions of `resource_response` for a path under the document
/// folder; the canonical forms of the root and of the requested path
/// (`None` where canonicalizing failed) and whether it is a file are read
/// by the caller, as is the file served.
pub fn resource_answer(
    root_set: bool,
    canonical_root: Option<&str>,
    canonical_candidate: Option<&str>,
    candidate_is_file: bool,
) -> (r: ResourceAnswer)
    ensures
        answer_view(r) == resource_decision(
            root_set,
            match canonical_root {
                Some(s) => Some(s@),
                None => None,
            },
            match canonical_candidate {
                Some(s) => Some(s@),
                None => None,
            },
            candidate_is_file,
        ),
{
    if !root_set {
        return ResourceAnswer::Missing("resource root not set");
    }
    match canonical_root {
        None => ResourceAnswer::Missing("resource root missing"),
        Some(root) => match canonical_candidate {
            None => ResourceAnswer::Missing("resource missing"),
            Some(c) => {
                if starts_with_path(c, root) && candidate_is_file {
                    ResourceAnswer::Serve(string_from(&chars_of(c)))
                } else {
                    ResourceAnswer::Denied
                }
            },
        },
    }
}

/// Law: the preview serves only files that lie under the document folder.
pub proof fn lemma_served_within_root(
    root_set: bool,
    canonical_root: Option<Seq<char>>,
    canonical_candidate: Option<Seq<char>>,
    candidate_is_file: bool,
)
    ensures
        resource_decision(root_set, canonical_root, canonical_candidate, candidate_is_file) is Serve
            ==> {
            &&& canonical_root is Some
            &&& path_starts_with(
                resource_decision(
                    root_set,
                    canonical_root,
                    canonical_candidate,
                    candidate_is_file,
                )->Serve_0,
                canonical_root->0,
            )
            &&& candidate_is_file
        },
{
}

/// `root/assets/themes/morandigarden`.
pub open spec fn theme_dir_under(root: Seq<char>) -> Seq<char> {
    join(join(join(root, "assets"@), "themes"@), "morandigarden"@)
}

fn theme_dir_under_exec(root: &str) -> (r: String)
    ensures
        r@ == theme_dir_under(root@),
{
    let a = path_join(root, "assets");
    let t = path_join(a.as_str(), "themes");
    path_join(t.as_str(), "morandigarden")
}

/// Where the theme folder is looked for next to
/// the running program, in order: inside the application bundle when the
/// program sits in `Contents/MacOS`, then beside the program. The first
/// that exists is used; without one, the folder of the source tree.
pub open spec fn theme_dir_candidate_list(exe: Seq<char>) -> Seq<Seq<char>> {
    match parent(exe) {
        None => Seq::empty(),
        Some(exe_dir) => (match parent(exe_dir) {
            Some(contents) => if file_name(contents) == Some("Contents"@) {
                seq![theme_dir_under(join(contents, "Resources"@))]
            } else {
                Seq::empty()
            },
            None => Seq::empty(),
        }) + seq![theme_dir_under(exe_dir)],
    }
}

/// The candidate folders for the path of the
/// running program.
pub fn theme_dir_candidates(exe: &str) -> (r: Vec<String>)
    ensures
        strings_view(r@) == theme_dir_candidate_list(exe@),
{
    let mut out: Vec<String> = Vec::new();
    match path_parent(exe) {
        None => {},
        Some(exe_dir) => {
            match path_parent(exe_dir.as_str()) {
                Some(contents) => {
                    let is_contents = match path_file_name(contents.as_str()) {
                        Some(n) => crate::html::eq_lit(&chars_of(n.as_str()), "Contents"),
                        None => false,
                    };
                    if is_contents {
                        let res = path_join(contents.as_str(), "Resources");
                        out.push(theme_dir_under_exec(res.as_str()));
                    }
                },
                None => {},
            }
            out.push(theme_dir_under_exec(exe_dir.as_str()));
        },
    }
    assert(strings_view(out@) =~= theme_dir_candidate_list(exe@));
    out
}

} // verus!
