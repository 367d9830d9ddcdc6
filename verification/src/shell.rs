//! What the editor window decides, apart from drawing it: setting
//! adjustments, mode cycling, labels, font stacks and preview styling,
//! recent lists, quick open, the folded state of the tree, files to open,
//! and the export session.
use vstd::prelude::*;
use crate::export::{
    ExportFormat, format_extension, format_label, normalize_export_path, normalized_export_path,
};
use crate::model::{
    WorkspaceState, DocumentState, EntryView, FileEntry, OutlineItem, entries_view, entry_view, flatten_list,
    lemma_entries_view, list_files, outline_view,
};
use crate::paths::{
    extension, file_name, file_name_range, parent, path_extension, path_parent, paths_equal,
    same_path,
};
use crate::preview::renderer::{RenderedDocument, json_string, json_text};
use crate::preview::urls::{percent_decode, percent_decoded};
use crate::settings::{
    AppConfig, EditorMode, SidebarMode, ThemeMode, eq_ignore_case, eq_ignore_case_exec,
    has_supported_extension, is_supported_path, lemma_normalize_onto, normalize_exts_onto,
    opt_view, strings_view, supported_only, supported_paths, theme_label,
};
use crate::text::{
    ascii_lowercase, chars_of, contains, decimal, extend, find_from_exec, is_ws, lower_seq,
    matches_at_exec, push_decimal, slice_to_vec, starts_with, string_from, trim, trim_start_char,
    trim_start_char_exec, trim_str,
};
use crate::workspace::capped;

verus! {

/// The number of entries a recent list keeps.
pub const RECENT_LIMIT: usize = 12;

/// The number of files quick open lists.
pub const QUICK_OPEN_LIMIT: usize = 24;

/// The number of lines a workspace search lists.
pub const SEARCH_LIMIT: usize = 80;

/// The smallest and largest editor font sizes.
pub const MIN_FONT_SIZE: u32 = 12;

pub const MAX_FONT_SIZE: u32 = 28;

/// The smallest and largest tab widths.
pub const MIN_TAB_SIZE: u32 = 2;

pub const MAX_TAB_SIZE: u32 = 8;

/// `x` clamped to `[lo, hi]`.
pub open spec fn clamp_int(x: int, lo: int, hi: int) -> int {
    if x < lo {
        lo
    } else if x > hi {
        hi
    } else {
        x
    }
}

/// `size as i32`: sizes above `i32::MAX` wrap around.
pub open spec fn as_i32(size: u32) -> int {
    if size > i32::MAX {
        size - 0x1_0000_0000
    } else {
        size as int
    }
}

fn clamped_step(size: u32, delta: i32, lo: u32, hi: u32) -> (r: u32)
    requires
        lo <= hi <= i32::MAX,
        i32::MIN <= as_i32(size) + delta <= i32::MAX,
    ensures
        r == clamp_int(as_i32(size) + delta, lo as int, hi as int),
{
    let s: i64 = if size > 0x7fff_ffff {
        size as i64 - 0x1_0000_0000
    } else {
        size as i64
    };
    let next: i64 = s + delta as i64;
    if next < lo as i64 {
        lo
    } else if next > hi as i64 {
        hi
    } else {
        next as u32
    }
}

/// The font size after a step of `delta`, kept within
/// 12 to 28.
pub fn next_font_size(size: u32, delta: i32) -> (r: u32)
    requires
        i32::MIN <= as_i32(size) + delta <= i32::MAX,
    ensures
        r == clamp_int(as_i32(size) + delta, MIN_FONT_SIZE as int, MAX_FONT_SIZE as int),
{
    clamped_step(size, delta, MIN_FONT_SIZE, MAX_FONT_SIZE)
}

/// The tab width after a step of `delta`, kept within 2
/// to 8.
pub fn next_tab_size(size: u32, delta: i32) -> (r: u32)
    requires
        i32::MIN <= as_i32(size) + delta <= i32::MAX,
    ensures
        r == clamp_int(as_i32(size) + delta, MIN_TAB_SIZE as int, MAX_TAB_SIZE as int),
{
    clamped_step(size, delta, MIN_TAB_SIZE, MAX_TAB_SIZE)
}

/// Source, preview, split, and round again.
pub open spec fn editor_mode_after(mode: EditorMode) -> EditorMode {
    match mode {
        EditorMode::Source => EditorMode::Preview,
        EditorMode::Preview => EditorMode::Split,
        EditorMode::Split => EditorMode::Source,
    }
}

/// The editor mode that follows `mode`.
pub fn next_editor_mode(mode: EditorMode) -> (r: EditorMode)
    ensures
        r == editor_mode_after(mode),
{
    match mode {
        EditorMode::Source => EditorMode::Preview,
        EditorMode::Preview => EditorMode::Split,
        EditorMode::Split => EditorMode::Source,
    }
}

/// Law: cycling the editor mode three times gives the mode back, and no
/// fewer cycles do.
pub proof fn lemma_editor_cycle(mode: EditorMode)
    ensures
        editor_mode_after(editor_mode_after(editor_mode_after(mode))) == mode,
        editor_mode_after(mode) != mode,
        editor_mode_after(editor_mode_after(mode)) != mode,
{
}

/// The history and outline views are shown as the file
/// tree.
pub open spec fn shown_sidebar(mode: SidebarMode) -> SidebarMode {
    match mode {
        SidebarMode::Recent | SidebarMode::Outline => SidebarMode::Files,
        m => m,
    }
}

/// The sidebar mode that is shown for `mode`.
pub fn shown_sidebar_mode(mode: SidebarMode) -> (r: SidebarMode)
    ensures
        r == shown_sidebar(mode),
{
    match mode {
        SidebarMode::Recent | SidebarMode::Outline => SidebarMode::Files,
        m => m,
    }
}

/// File tree, file list, search, and round again.
pub open spec fn sidebar_after(mode: SidebarMode) -> SidebarMode {
    match mode {
        SidebarMode::Files => SidebarMode::FileList,
        SidebarMode::FileList | SidebarMode::Recent | SidebarMode::Outline => SidebarMode::Search,
        SidebarMode::Search => SidebarMode::Files,
    }
}

/// The mode that is shown next.
pub fn next_sidebar_mode(mode: SidebarMode) -> (r: SidebarMode)
    ensures
        r == shown_sidebar(sidebar_after(mode)),
{
    let m = match mode {
        SidebarMode::Files => SidebarMode::FileList,
        SidebarMode::FileList | SidebarMode::Recent | SidebarMode::Outline => SidebarMode::Search,
        SidebarMode::Search => SidebarMode::Files,
    };
    shown_sidebar_mode(m)
}

/// The position of the mode in the mode switcher.
pub fn editor_mode_index(mode: EditorMode) -> (r: usize)
    ensures
        r == match mode {
            EditorMode::Source => 0usize,
            EditorMode::Preview => 1usize,
            EditorMode::Split => 2usize,
        },
{
    match mode {
        EditorMode::Source => 0,
        EditorMode::Preview => 1,
        EditorMode::Split => 2,
    }
}

/// The tab of the sidebar that is marked.
pub fn sidebar_mode_index(mode: SidebarMode) -> (r: usize)
    ensures
        r == match mode {
            SidebarMode::FileList => 1usize,
            SidebarMode::Search => 2usize,
            _ => 0usize,
        },
{
    match mode {
        SidebarMode::Files => 0,
        SidebarMode::FileList => 1,
        SidebarMode::Recent => 0,
        SidebarMode::Outline => 0,
        SidebarMode::Search => 2,
    }
}

/// The theme name the preview page is told.
pub open spec fn preview_theme(theme: ThemeMode) -> Seq<char> {
    match theme {
        ThemeMode::Light => "light"@,
        ThemeMode::Dark => "dark"@,
        ThemeMode::Sepia => "sepia"@,
        ThemeMode::Typora => "typora"@,
    }
}

/// The theme name the preview page uses.
pub fn preview_theme_name(theme: ThemeMode) -> (r: &'static str)
    ensures
        r@ == preview_theme(theme),
{
    match theme {
        ThemeMode::Light => "light",
        ThemeMode::Dark => "dark",
        ThemeMode::Sepia => "sepia",
        ThemeMode::Typora => "typora",
    }
}

/// The description of each theme in the settings panel.
pub open spec fn theme_description(mode: ThemeMode) -> Seq<char> {
    match mode {
        ThemeMode::Light => "Morandi 浅色配色"@,
        ThemeMode::Sepia => "Morandi 护眼暖色"@,
        ThemeMode::Dark => "Morandi 深色配色"@,
        ThemeMode::Typora => "Typora / GitHub 简洁风格"@,
    }
}

/// The description of a theme in the settings.
pub fn theme_mode_description(mode: ThemeMode) -> (r: &'static str)
    ensures
        r@ == theme_description(mode),
{
    match mode {
        ThemeMode::Light => "Morandi 浅色配色",
        ThemeMode::Sepia => "Morandi 护眼暖色",
        ThemeMode::Dark => "Morandi 深色配色",
        ThemeMode::Typora => "Typora / GitHub 简洁风格",
    }
}

/// The theme whose name is `label` (names are
/// distinct, so there is at most one).
pub fn theme_mode_from_label(label: &str) -> (r: Option<ThemeMode>)
    ensures
        match r {
            Some(m) => theme_label(m) == label@,
            None => forall|m: ThemeMode| theme_label(m) != label@,
        },
{
    let all = ThemeMode::all();
    let l = chars_of(label);
    let mut i: usize = 0;
    while i < 4
        invariant
            i <= 4,
            all@ == seq![ThemeMode::Light, ThemeMode::Typora, ThemeMode::Sepia, ThemeMode::Dark],
            l@ == label@,
            forall|j: int| 0 <= j < i ==> theme_label(#[trigger] all@[j]) != label@,
        decreases 4 - i,
    {
        let m = all[i];
        let name = chars_of(m.label());
        let (_, eq) = crate::text::compare_chars(&name, &l);
        if eq {
            return Some(m);
        }
        i += 1;
    }
    proof {
        assert forall|m: ThemeMode| theme_label(m) != label@ by {
            match m {
                ThemeMode::Light => assert(all@[0] == m),
                ThemeMode::Typora => assert(all@[1] == m),
                ThemeMode::Sepia => assert(all@[2] == m),
                ThemeMode::Dark => assert(all@[3] == m),
            }
        }
    }
    None
}

/// How a setting that is on or off is shown.
pub open spec fn on_off(value: bool) -> Seq<char> {
    if value {
        "开启"@
    } else {
        "关闭"@
    }
}

/// The label of a switch: on or off.
pub fn bool_label(value: bool) -> (r: &'static str)
    ensures
        r@ == on_off(value),
{
    if value {
        "开启"
    } else {
        "关闭"
    }
}

/// A configured path as is, or the fallback text.
pub fn tool_status(path: Option<&str>, fallback: &'static str) -> (r: String)
    ensures
        r@ == match path {
            Some(p) => p@,
            None => fallback@,
        },
{
    match path {
        Some(p) => string_from(&chars_of(p)),
        None => string_from(&chars_of(fallback)),
    }
}

/// A configured path as is, or "not configured".
pub fn path_label(path: Option<&str>) -> (r: String)
    ensures
        r@ == match path {
            Some(p) => p@,
            None => "未配置"@,
        },
{
    tool_status(path, "未配置")
}

/// A font family name without quote characters and surrounding whitespace.
pub open spec fn unquoted_family(family: Seq<char>) -> Seq<char> {
    trim(family.filter(|c: char| c != '"' && c != '\''))
}

fn unquoted_family_exec(family: &str) -> (r: Vec<char>)
    ensures
        r@ == unquoted_family(family@),
{
    let s = chars_of(family);
    let mut kept: Vec<char> = Vec::new();
    let mut i: usize = 0;
    while i < s.len()
        invariant
            i <= s@.len(),
            kept@ == s@.take(i as int).filter(|c: char| c != '"' && c != '\''),
        decreases s@.len() - i,
    {
        let c = s[i];
        proof {
            reveal(Seq::filter);
            assert(s@.take(i + 1).drop_last() =~= s@.take(i as int));
        }
        if c != '"' && c != '\'' {
            kept.push(c);
        }
        i += 1;
    }
    assert(s@.take(i as int) =~= s@);
    trim_str(&kept)
}

/// The configured family, or the editor's monospace
/// font when none is left.
pub open spec fn editor_fonts(family: Seq<char>) -> Seq<char> {
    let primary = unquoted_family(family);
    if primary.len() == 0 {
        "JetBrains Mono NL"@
    } else {
        primary
    }
}

/// The font stack of the editor (`editor_fonts`).
pub fn editor_font_stack(font_family: &str) -> (r: String)
    ensures
        r@ == editor_fonts(font_family@),
{
    let primary = unquoted_family_exec(font_family);
    if primary.len() == 0 {
        string_from(&chars_of("JetBrains Mono NL"))
    } else {
        string_from(&primary)
    }
}

/// The fonts the preview falls back to.
pub open spec fn preview_fallback() -> Seq<char> {
    "\"Alibaba PuHuiTi 3.0\", \"PingFang SC\", sans-serif"@
}

/// The configured family, quoted, before the preview
/// fonts.
pub open spec fn preview_fonts(family: Seq<char>) -> Seq<char> {
    let primary = unquoted_family(family);
    if primary.len() == 0 {
        preview_fallback()
    } else {
        "\""@ + primary + "\", "@ + preview_fallback()
    }
}

/// The font stack of the preview (`preview_fonts`).
pub fn preview_font_stack(font_family: &str) -> (r: String)
    ensures
        r@ == preview_fonts(font_family@),
{
    let primary = unquoted_family_exec(font_family);
    let fallback = chars_of("\"Alibaba PuHuiTi 3.0\", \"PingFang SC\", sans-serif");
    if primary.len() == 0 {
        string_from(&fallback)
    } else {
        let mut out = chars_of("\"");
        extend(&mut out, &primary);
        extend(&mut out, &chars_of("\", "));
        extend(&mut out, &fallback);
        string_from(&out)
    }
}

/// A character that separates extensions in the settings field: a comma, a
/// semicolon or whitespace.
pub open spec fn is_ext_sep(c: char) -> bool {
    c == ',' || c == ';' || is_ws(c)
}

/// The position of the first separator at or after `i`, or the end.
pub open spec fn next_sep(s: Seq<char>, i: int) -> int
    decreases s.len() - i,
{
    if i < 0 || i >= s.len() {
        s.len() as int
    } else if is_ext_sep(s[i]) {
        i
    } else {
        next_sep(s, i + 1)
    }
}

proof fn lemma_next_sep(s: Seq<char>, i: int)
    requires
        0 <= i <= s.len(),
    ensures
        i <= next_sep(s, i) <= s.len(),
        next_sep(s, i) < s.len() ==> is_ext_sep(s[next_sep(s, i)]),
    decreases s.len() - i,
{
    if i < s.len() && !is_ext_sep(s[i]) {
        lemma_next_sep(s, i + 1);
    }
}

/// The fields between separators from position `i` on, empty ones included
/// (`str::split` with the separator test).
pub open spec fn fields_from(s: Seq<char>, i: int) -> Seq<Seq<char>>
    decreases s.len() + 1 - i,
{
    if i < 0 || i > s.len() {
        Seq::empty()
    } else {
        let e = next_sep(s, i);
        if e < i || e >= s.len() {
            seq![s.subrange(i, s.len() as int)]
        } else {
            seq![s.subrange(i, e)] + fields_from(s, e + 1)
        }
    }
}

/// The fields of the text, each trimmed, without
/// leading dots and ASCII-lower-cased; empty ones and repeats dropped.
pub open spec fn parsed_extensions(value: Seq<char>) -> Seq<Seq<char>> {
    normalize_exts_onto(fields_from(value, 0), Seq::empty())
}

/// The distinct extensions written in a settings text.
pub fn parse_extensions(value: &str) -> (r: Vec<String>)
    ensures
        strings_view(r@) == parsed_extensions(value@),
{
    let s = chars_of(value);
    let ghost target = parsed_extensions(value@);
    let mut out: Vec<String> = Vec::new();
    let mut start: usize = 0;
    let mut i: usize = 0;
    assert(strings_view(out@) =~= Seq::<Seq<char>>::empty());
    loop
        invariant
            start <= i <= s@.len(),
            s@ == value@,
            target == parsed_extensions(value@),
            next_sep(s@, start as int) == next_sep(s@, i as int),
            normalize_exts_onto(fields_from(s@, start as int), strings_view(out@)) == target,
        decreases s@.len() - i,
    {
        if i < s.len() && !(s[i] == ',' || s[i] == ';' || crate::text::is_whitespace(s[i])) {
            i += 1;
            continue;
        }
        proof {
            lemma_next_sep(s@, i as int);
        }
        let field = string_from(&crate::text::slice_to_vec(&s, start, i));
        let e = crate::settings::normalize_ext_exec(&field);
        let es = string_from(&e);
        let ghost before = strings_view(out@);
        let ghost fs = fields_from(s@, start as int);
        if e.len() > 0 && !crate::settings::contains_string(&out, &es) {
            out.push(es);
            assert(strings_view(out@) =~= before.push(e@));
        }
        if i >= s.len() {
            proof {
                assert(fs =~= seq![field@]);
                assert(fs[0] == field@);
                assert(fs.drop_first() =~= Seq::<Seq<char>>::empty());
                assert(normalize_exts_onto(fs.drop_first(), strings_view(out@)) == strings_view(out@));
                assert(normalize_exts_onto(fs, before) == normalize_exts_onto(fs.drop_first(), strings_view(out@)));
            }
            return out;
        }
        proof {
            assert(fs =~= seq![field@] + fields_from(s@, i + 1));
            assert(fs.drop_first() =~= fields_from(s@, i + 1));
        }
        i += 1;
        start = i;
    }
}

/// Law: parsed extensions hold no empty entry and no entry twice.
pub proof fn lemma_parsed_extensions_distinct(value: Seq<char>)
    ensures
        forall|i: int|
            0 <= i < parsed_extensions(value).len() ==> #[trigger] parsed_extensions(value)[i].len()
                > 0,
        forall|i: int, j: int|
            0 <= i < j < parsed_extensions(value).len() ==> parsed_extensions(value)[i]
                != parsed_extensions(value)[j],
{
    lemma_normalize_onto(fields_from(value, 0), Seq::empty());
}

/// How the settings panel lists extensions: each with one leading dot,
/// separated by a comma and a space.
pub open spec fn extensions_label(exts: Seq<Seq<char>>) -> Seq<char>
    decreases exts.len(),
{
    if exts.len() == 0 {
        Seq::empty()
    } else if exts.len() == 1 {
        seq!['.'] + trim_start_char(exts[0], '.')
    } else {
        extensions_label(exts.drop_last()) + ", "@ + seq!['.'] + trim_start_char(exts.last(), '.')
    }
}

/// The supported extensions as the settings show them.
pub fn supported_extensions_label(exts: &[String]) -> (r: String)
    ensures
        r@ == extensions_label(strings_view(exts@)),
{
    let ghost all = strings_view(exts@);
    let mut out: Vec<char> = Vec::new();
    let mut i: usize = 0;
    assert(all.take(0) =~= Seq::<Seq<char>>::empty());
    while i < exts.len()
        invariant
            i <= exts@.len(),
            all == strings_view(exts@),
            out@ == extensions_label(all.take(i as int)),
        decreases exts@.len() - i,
    {
        let t = trim_start_char_exec(&chars_of(exts[i].as_str()), '.');
        proof {
            assert(all.take(i + 1).drop_last() =~= all.take(i as int));
            assert(all.take(i + 1).last() == exts@[i as int]@);
            reveal_strlit(", ");
        }
        if i > 0 {
            extend(&mut out, &chars_of(", "));
        }
        out.push('.');
        extend(&mut out, &t);
        proof {
            if i == 0 {
                assert(out@ =~= seq!['.'] + t@);
                assert(all.take(1)[0] == all.take(1).last());
            } else {
                assert(out@ =~= extensions_label(all.take(i as int)) + ", "@ + seq!['.'] + t@);
            }
        }
        i += 1;
    }
    assert(all.take(i as int) =~= all);
    string_from(&out)
}

/// The entries of a list that are not the same path as `p`.
pub open spec fn without_path(list: Seq<Seq<char>>, p: Seq<char>) -> Seq<Seq<char>>
    decreases list.len(),
{
    if list.len() == 0 {
        Seq::empty()
    } else {
        let rest = without_path(list.drop_last(), p);
        if same_path(list.last(), p) {
            rest
        } else {
            rest.push(list.last())
        }
    }
}

/// A recent list after opening `p`: `p` first, then the
/// earlier entries that are not the same path, at most twelve in all.
pub open spec fn remembered(list: Seq<Seq<char>>, p: Seq<char>) -> Seq<Seq<char>> {
    capped(seq![p] + without_path(list, p), RECENT_LIMIT as int)
}

/// Puts a path at the head of a recent list (`remembered`).
pub fn remember_recent(list: &mut Vec<String>, path: &str)
    ensures
        strings_view(final(list)@) == remembered(strings_view(old(list)@), path@),
{
    let ghost all = strings_view(list@);
    let mut out: Vec<String> = Vec::new();
    out.push(string_from(&chars_of(path)));
    let mut i: usize = 0;
    assert(all.take(0) =~= Seq::<Seq<char>>::empty());
    assert(strings_view(out@) =~= seq![path@] + without_path(all.take(0), path@));
    while i < list.len()
        invariant
            i <= list@.len(),
            all == strings_view(list@),
            strings_view(out@) == seq![path@] + without_path(all.take(i as int), path@),
        decreases list@.len() - i,
    {
        proof {
            assert(all.take(i + 1).drop_last() =~= all.take(i as int));
            assert(all.take(i + 1).last() == list@[i as int]@);
        }
        let ghost before = strings_view(out@);
        if !paths_equal(list[i].as_str(), path) {
            out.push(string_from(&chars_of(list[i].as_str())));
            assert(strings_view(out@) =~= before.push(list@[i as int]@));
        }
        i += 1;
    }
    assert(all.take(i as int) =~= all);
    let ghost full = strings_view(out@);
    let mut kept: Vec<String> = Vec::new();
    let mut k: usize = 0;
    while k < out.len() && k < RECENT_LIMIT
        invariant
            k <= out@.len(),
            k <= RECENT_LIMIT,
            full == strings_view(out@),
            strings_view(kept@) == full.take(k as int),
        decreases out@.len() - k,
    {
        let ghost before = strings_view(kept@);
        assert(full[k as int] == out@[k as int]@);
        kept.push(string_from(&chars_of(out[k].as_str())));
        assert(strings_view(kept@) =~= before.push(full[k as int]));
        assert(full.take(k + 1) =~= full.take(k as int).push(full[k as int]));
        k += 1;
    }
    assert(strings_view(kept@) =~= capped(full, RECENT_LIMIT as int));
    *list = kept;
}

/// Law: after remembering `p`, the list starts with `p`, holds no other
/// entry that is the same path, and has at most twelve entries.
pub proof fn lemma_remembered(list: Seq<Seq<char>>, p: Seq<char>)
    ensures
        remembered(list, p).len() >= 1,
        remembered(list, p)[0] == p,
        remembered(list, p).len() <= RECENT_LIMIT,
        forall|i: int| 1 <= i < remembered(list, p).len() ==> !same_path(#[trigger] remembered(list, p)[i], p),
{
    lemma_without_path(list, p);
    let s = seq![p] + without_path(list, p);
    assert(s[0] == p);
    assert forall|i: int| 1 <= i < remembered(list, p).len() implies !same_path(#[trigger] remembered(list, p)[i], p) by {
        assert(remembered(list, p)[i] == s[i]);
        assert(s[i] == without_path(list, p)[i - 1]);
    }
}

proof fn lemma_without_path(list: Seq<Seq<char>>, p: Seq<char>)
    ensures
        forall|i: int| 0 <= i < without_path(list, p).len() ==> !same_path(#[trigger] without_path(list, p)[i], p),
    decreases list.len(),
{
    if list.len() > 0 {
        lemma_without_path(list.drop_last(), p);
        let rest = without_path(list.drop_last(), p);
        if !same_path(list.last(), p) {
            assert forall|i: int| 0 <= i < rest.push(list.last()).len() implies !same_path(
                #[trigger] rest.push(list.last())[i],
                p,
            ) by {
                if i < rest.len() {
                    assert(rest.push(list.last())[i] == rest[i]);
                }
            }
        }
    }
}

/// The files, in order, whose name contains the trimmed,
/// ASCII-lower-cased query (all files for a blank query), at most 24.
pub open spec fn quick_open_match(path: Seq<char>, needle: Seq<char>) -> bool {
    needle.len() == 0 || match file_name(path) {
        Some(n) => contains(lower_seq(n), needle),
        None => false,
    }
}

pub open spec fn quick_open_matches(files: Seq<Seq<char>>, query: Seq<char>) -> Seq<Seq<char>> {
    let needle = lower_seq(trim(query));
    capped(files.filter(|p: Seq<char>| quick_open_match(p, needle)), QUICK_OPEN_LIMIT as int)
}

/// Law: quick open lists the files whose name holds the query: every
/// listed file is one of `files` whose name contains the
/// trimmed, ASCII-lower-cased query (any file for a blank query), and a file
/// whose lower-cased name contains the query anywhere is listed unless
/// the list is already full.
pub proof fn lemma_quick_open_names(files: Seq<Seq<char>>, query: Seq<char>)
    ensures
        forall|j: int|
            0 <= j < quick_open_matches(files, query).len() ==> {
                let r = #[trigger] quick_open_matches(files, query)[j];
                &&& files.contains(r)
                &&& (lower_seq(trim(query)).len() == 0 || (file_name(r) is Some && contains(
                    lower_seq(file_name(r)->0),
                    lower_seq(trim(query)),
                )))
            },
        forall|i: int|
            0 <= i < files.len() && file_name(#[trigger] files[i]) is Some && contains(
                lower_seq(file_name(files[i])->0),
                lower_seq(trim(query)),
            ) && quick_open_matches(files, query).len() < QUICK_OPEN_LIMIT ==> quick_open_matches(
                files,
                query,
            ).contains(files[i]),
{
    let needle = lower_seq(trim(query));
    let pred = |p: Seq<char>| quick_open_match(p, needle);
    let fl = files.filter(pred);
    let r = quick_open_matches(files, query);
    assert(r == capped(fl, QUICK_OPEN_LIMIT as int));
    fl.filter_lemma(pred);
    assert forall|j: int| 0 <= j < r.len() implies {
        let x = #[trigger] r[j];
        &&& files.contains(x)
        &&& (needle.len() == 0 || (file_name(x) is Some && contains(lower_seq(file_name(x)->0), needle)))
    } by {
        if fl.len() > QUICK_OPEN_LIMIT {
            assert(r == fl.take(QUICK_OPEN_LIMIT as int));
        }
        assert(r[j] == fl[j]);
        assert(pred(fl[j]));
        assert(fl.contains(fl[j]));
        files.lemma_filter_contains_rev(pred, fl[j]);
    }
    assert forall|i: int|
        0 <= i < files.len() && file_name(#[trigger] files[i]) is Some && contains(
            lower_seq(file_name(files[i])->0),
            needle,
        ) && r.len() < QUICK_OPEN_LIMIT implies r.contains(files[i]) by {
        assert(pred(files[i]));
        files.lemma_filter_contains(pred, i);
        if fl.len() > QUICK_OPEN_LIMIT {
            assert(r == fl.take(QUICK_OPEN_LIMIT as int));
            assert(r.len() == QUICK_OPEN_LIMIT);
        }
        assert(r == fl);
    }
}

/// `matching_files` over the workspace's files.
pub fn matching_files(files: &[String], query: &str) -> (r: Vec<String>)
    ensures
        strings_view(r@) == quick_open_matches(strings_view(files@), query@),
{
    let needle = ascii_lowercase(&trim_str(&chars_of(query)));
    let ghost all = strings_view(files@);
    let ghost f = |p: Seq<char>| quick_open_match(p, needle@);
    let mut out: Vec<String> = Vec::new();
    let mut i: usize = 0;
    assert(all.take(0).filter(f) =~= Seq::<Seq<char>>::empty()) by {
        reveal(Seq::filter);
    }
    while i < files.len() && out.len() < QUICK_OPEN_LIMIT
        invariant
            i <= files@.len(),
            all == strings_view(files@),
            needle@ == lower_seq(trim(query@)),
            f == (|p: Seq<char>| quick_open_match(p, needle@)),
            strings_view(out@) == all.take(i as int).filter(f),
            out@.len() <= QUICK_OPEN_LIMIT,
        decreases files@.len() - i,
    {
        let p = chars_of(files[i].as_str());
        let hit = if needle.len() == 0 {
            true
        } else {
            match file_name_range(&p) {
                None => false,
                Some((a, b)) => {
                    let name = ascii_lowercase(&slice_to_vec(&p, a, b));
                    find_from_exec(&name, &needle, 0).is_some()
                },
            }
        };
        proof {
            reveal(Seq::filter);
            assert(all.take(i + 1).drop_last() =~= all.take(i as int));
            assert(all.take(i + 1).last() == files@[i as int]@);
            assert(hit == f(files@[i as int]@));
        }
        let ghost before = strings_view(out@);
        if hit {
            out.push(string_from(&p));
            assert(strings_view(out@) =~= before.push(files@[i as int]@));
        }
        i += 1;
    }
    proof {
        let fl = all.filter(f);
        if i == files@.len() {
            assert(all.take(i as int) =~= all);
        } else {
            lemma_filter_prefix(all, f, i as int);
        }
    }
    out
}

/// The filter of a prefix is a prefix of the filter.
proof fn lemma_filter_prefix(s: Seq<Seq<char>>, f: spec_fn(Seq<char>) -> bool, i: int)
    requires
        0 <= i <= s.len(),
    ensures
        s.take(i).filter(f).len() <= s.filter(f).len(),
        s.filter(f).take(s.take(i).filter(f).len() as int) == s.take(i).filter(f),
    decreases s.len() - i,
{
    reveal(Seq::filter);
    if i == s.len() {
        assert(s.take(i) =~= s);
    } else {
        lemma_filter_prefix(s, f, i + 1);
        assert(s.take(i + 1).drop_last() =~= s.take(i));
        let a = s.take(i).filter(f);
        let b = s.take(i + 1).filter(f);
        assert(b.take(a.len() as int) =~= a);
        assert(s.filter(f).take(a.len() as int) =~= b.take(a.len() as int));
    }
}

/// Whether two string lists are equal.
fn same_strings(a: &Vec<String>, b: &Vec<String>) -> (r: bool)
    ensures
        r == (strings_view(a@) == strings_view(b@)),
{
    if a.len() != b.len() {
        return false;
    }
    let mut i: usize = 0;
    while i < a.len()
        invariant
            i <= a@.len(),
            a@.len() == b@.len(),
            forall|k: int| 0 <= k < i ==> a@[k]@ == b@[k]@,
        decreases a@.len() - i,
    {
        let (_, eq) = crate::text::compare_chars(&chars_of(a[i].as_str()), &chars_of(b[i].as_str()));
        if !eq {
            assert(strings_view(a@)[i as int] != strings_view(b@)[i as int]);
            return false;
        }
        i += 1;
    }
    assert(strings_view(a@) =~= strings_view(b@));
    true
}

/// The extension list a settings text asks for, when it differs from the
/// current one and is not empty.
pub open spec fn extensions_update(current: Seq<Seq<char>>, value: Seq<char>) -> Option<
    Seq<Seq<char>>,
> {
    let exts = parsed_extensions(value);
    if exts.len() == 0 || exts == current {
        None
    } else {
        Some(exts)
    }
}

/// Takes the extensions of the settings text
/// and drops the recent files they no longer cover; the status line to show
/// when something changed.
pub fn apply_supported_extensions(
    supported: &mut Vec<String>,
    config_recent: &mut Vec<String>,
    workspace_recent: &mut Vec<String>,
    value: &str,
) -> (status: Option<String>)
    ensures
        match extensions_update(strings_view(old(supported)@), value@) {
            None => {
                &&& status is None
                &&& final(supported)@ == old(supported)@
                &&& final(config_recent)@ == old(config_recent)@
                &&& final(workspace_recent)@ == old(workspace_recent)@
            },
            Some(exts) => {
                &&& status is Some
                &&& status->0@ == "已更新可打开扩展名: "@ + extensions_label(exts)
                &&& strings_view(final(supported)@) == exts
                &&& strings_view(final(config_recent)@) == supported_only(
                    strings_view(old(config_recent)@),
                    exts,
                )
                &&& strings_view(final(workspace_recent)@) == supported_only(
                    strings_view(old(workspace_recent)@),
                    exts,
                )
            },
        },
{
    let exts = parse_extensions(value);
    if exts.len() == 0 || same_strings(&exts, supported) {
        return None;
    }
    let cr = supported_paths(config_recent, &exts);
    let wr = supported_paths(workspace_recent, &exts);
    *config_recent = cr;
    *workspace_recent = wr;
    let label = supported_extensions_label(&exts);
    *supported = exts;
    let mut msg = chars_of("已更新可打开扩展名: ");
    extend(&mut msg, &chars_of(label.as_str()));
    Some(string_from(&msg))
}

/// The paths of the unfolded folders of a tree, depth first.
pub open spec fn entry_expanded(e: EntryView) -> Seq<Seq<char>>
    decreases e, 1nat,
{
    if e.is_dir {
        (if e.expanded {
            seq![e.path]
        } else {
            Seq::empty()
        }) + list_expanded(e.children)
    } else {
        Seq::empty()
    }
}

/// The paths of the unfolded folders of a list of trees, in order.
pub open spec fn list_expanded(es: Seq<EntryView>) -> Seq<Seq<char>>
    decreases es, 0nat,
{
    if es.len() == 0 {
        Seq::empty()
    } else {
        proof {
            assert(decreases_to!(es => es[es.len() - 1]));
        }
        list_expanded(es.drop_last()) + entry_expanded(es.last())
    }
}

fn collect_expanded_entry(e: &FileEntry, out: &mut Vec<String>)
    ensures
        strings_view(final(out)@) == strings_view(old(out)@) + entry_expanded(entry_view(*e)),
    decreases e, 1nat,
{
    if e.is_dir {
        let ghost before = strings_view(out@);
        if e.expanded {
            out.push(string_from(&chars_of(e.path.as_str())));
            assert(strings_view(out@) =~= before.push(e.path@));
        }
        let ghost mid = strings_view(out@);
        collect_expanded_list(&e.children, out);
        assert(strings_view(out@) =~= before + entry_expanded(entry_view(*e)));
    } else {
        assert(strings_view(out@) =~= strings_view(old(out)@) + Seq::<Seq<char>>::empty());
    }
}

fn collect_expanded_list(es: &Vec<FileEntry>, out: &mut Vec<String>)
    ensures
        strings_view(final(out)@) == strings_view(old(out)@) + list_expanded(entries_view(es@)),
    decreases es, 0nat,
{
    let ghost all = entries_view(es@);
    proof {
        lemma_entries_view(es@);
    }
    let mut i: usize = 0;
    assert(all.take(0) =~= Seq::<EntryView>::empty());
    assert(strings_view(out@) =~= strings_view(old(out)@) + list_expanded(all.take(0)));
    while i < es.len()
        invariant
            i <= es@.len(),
            all == entries_view(es@),
            all.len() == es@.len(),
            forall|k: int| 0 <= k < es@.len() ==> #[trigger] all[k] == entry_view(es@[k]),
            strings_view(out@) == strings_view(old(out)@) + list_expanded(all.take(i as int)),
        decreases es@.len() - i,
    {
        proof {
            assert(decreases_to!(*es => es@[i as int]));
            assert(all.take(i + 1).drop_last() =~= all.take(i as int));
            assert(all.take(i + 1).last() == entry_view(es@[i as int]));
        }
        let ghost before = strings_view(out@);
        collect_expanded_entry(&es[i], out);
        assert(strings_view(out@) =~= strings_view(old(out)@) + list_expanded(all.take(i + 1)));
        i += 1;
    }
    assert(all.take(i as int) =~= all);
}

/// The paths of the unfolded folders, depth first.
pub fn expanded_dir_set(entries: &Vec<FileEntry>) -> (r: Vec<String>)
    ensures
        strings_view(r@) == list_expanded(entries_view(entries@)),
{
    let mut out: Vec<String> = Vec::new();
    collect_expanded_list(entries, &mut out);
    assert(strings_view(out@) =~= list_expanded(entries_view(entries@)));
    out
}

/// The paths of the files, depth first.
pub fn file_set_from_entries(entries: &Vec<FileEntry>) -> (r: Vec<String>)
    ensures
        strings_view(r@) == list_files(entries@),
{
    let mut out: Vec<String> = Vec::new();
    flatten_list(entries, &mut out);
    assert(strings_view(out@) =~= list_files(entries@));
    out
}

/// Whether `p` is the same path as one of `set`.
pub open spec fn in_path_set(set: Seq<Seq<char>>, p: Seq<char>) -> bool {
    exists|i: int| 0 <= i < set.len() && same_path(#[trigger] set[i], p)
}

fn in_path_set_exec(set: &[String], p: &str) -> (r: bool)
    ensures
        r == in_path_set(strings_view(set@), p@),
{
    let mut i: usize = 0;
    while i < set.len()
        invariant
            i <= set@.len(),
            forall|k: int| 0 <= k < i ==> !same_path(#[trigger] strings_view(set@)[k], p@),
        decreases set@.len() - i,
    {
        if paths_equal(set[i].as_str(), p) {
            assert(same_path(strings_view(set@)[i as int], p@));
            return true;
        }
        i += 1;
    }
    false
}

/// A tree with each folder unfolded exactly when its path is in `set`.
pub open spec fn entry_applied(e: EntryView, set: Seq<Seq<char>>) -> EntryView
    decreases e, 1nat,
{
    if e.is_dir {
        EntryView {
            expanded: in_path_set(set, e.path),
            children: list_applied(e.children, set),
            ..e
        }
    } else {
        e
    }
}

/// `apply_expanded_dirs` on a list of trees.
pub open spec fn list_applied(es: Seq<EntryView>, set: Seq<Seq<char>>) -> Seq<EntryView>
    decreases es, 0nat,
{
    if es.len() == 0 {
        Seq::empty()
    } else {
        proof {
            assert(decreases_to!(es => es[es.len() - 1]));
        }
        list_applied(es.drop_last(), set).push(entry_applied(es.last(), set))
    }
}

proof fn lemma_list_applied(es: Seq<EntryView>, set: Seq<Seq<char>>)
    ensures
        list_applied(es, set).len() == es.len(),
        forall|i: int| 0 <= i < es.len() ==> #[trigger] list_applied(es, set)[i] == entry_applied(es[i], set),
    decreases es.len(),
{
    if es.len() > 0 {
        lemma_list_applied(es.drop_last(), set);
    }
}

/// The folders of a tree, each before what it holds.
pub open spec fn entry_dirs(e: EntryView) -> Seq<EntryView>
    decreases e, 1nat,
{
    if e.is_dir {
        seq![e] + list_dirs(e.children)
    } else {
        Seq::empty()
    }
}

/// The folders of a list of trees, in order.
pub open spec fn list_dirs(es: Seq<EntryView>) -> Seq<EntryView>
    decreases es, 0nat,
{
    if es.len() == 0 {
        Seq::empty()
    } else {
        proof {
            assert(decreases_to!(es => es[es.len() - 1]));
        }
        list_dirs(es.drop_last()) + entry_dirs(es.last())
    }
}

/// Whether `p` is one of `exp`.
pub open spec fn path_listed(exp: Seq<Seq<char>>, p: Seq<char>) -> bool {
    exists|j: int| 0 <= j < exp.len() && #[trigger] exp[j] == p
}

/// Whether an unfolded folder of `dirs` has path `p`.
pub open spec fn open_dir_at(dirs: Seq<EntryView>, p: Seq<char>) -> bool {
    exists|k: int| 0 <= k < dirs.len() && (#[trigger] dirs[k]).expanded && dirs[k].path == p
}

/// The unfolded-folder list holds exactly the paths of the unfolded
/// folders.
pub open spec fn expanded_matches(exp: Seq<Seq<char>>, dirs: Seq<EntryView>) -> bool {
    &&& forall|j: int| 0 <= j < exp.len() ==> open_dir_at(dirs, #[trigger] exp[j])
    &&& forall|k: int|
        0 <= k < dirs.len() && (#[trigger] dirs[k]).expanded ==> path_listed(exp, dirs[k].path)
}

proof fn lemma_expanded_matches_concat(
    e1: Seq<Seq<char>>,
    d1: Seq<EntryView>,
    e2: Seq<Seq<char>>,
    d2: Seq<EntryView>,
)
    requires
        expanded_matches(e1, d1),
        expanded_matches(e2, d2),
    ensures
        expanded_matches(e1 + e2, d1 + d2),
{
    let e = e1 + e2;
    let d = d1 + d2;
    assert forall|j: int| 0 <= j < e.len() implies open_dir_at(d, #[trigger] e[j]) by {
        if j < e1.len() {
            assert(e[j] == e1[j]);
            assert(open_dir_at(d1, e1[j]));
            let k = choose|k: int| 0 <= k < d1.len() && (#[trigger] d1[k]).expanded && d1[k].path == e1[j];
            assert(d[k] == d1[k]);
        } else {
            assert(e[j] == e2[j - e1.len()]);
            assert(open_dir_at(d2, e2[j - e1.len()]));
            let k = choose|k: int|
                0 <= k < d2.len() && (#[trigger] d2[k]).expanded && d2[k].path == e2[j - e1.len()];
            assert(d[k + d1.len()] == d2[k]);
        }
    }
    assert forall|k: int| 0 <= k < d.len() && (#[trigger] d[k]).expanded implies path_listed(
        e,
        d[k].path,
    ) by {
        if k < d1.len() {
            assert(d[k] == d1[k]);
            assert(path_listed(e1, d1[k].path));
            let j = choose|j: int| 0 <= j < e1.len() && #[trigger] e1[j] == d1[k].path;
            assert(e[j] == e1[j]);
        } else {
            assert(d[k] == d2[k - d1.len()]);
            assert(path_listed(e2, d2[k - d1.len()].path));
            let j = choose|j: int| 0 <= j < e2.len() && #[trigger] e2[j] == d2[k - d1.len()].path;
            assert(e[j + e1.len()] == e2[j]);
        }
    }
}

proof fn lemma_entry_expanded_matches(e: EntryView)
    ensures
        expanded_matches(entry_expanded(e), entry_dirs(e)),
    decreases e, 1nat,
{
    if e.is_dir {
        lemma_list_expanded_matches(e.children);
        let head_e: Seq<Seq<char>> = if e.expanded {
            seq![e.path]
        } else {
            Seq::empty()
        };
        let head_d = seq![e];
        assert(expanded_matches(head_e, head_d)) by {
            assert(head_d[0] == e);
            if e.expanded {
                assert(head_e[0] == e.path);
                assert(open_dir_at(head_d, head_e[0]));
                assert(path_listed(head_e, head_d[0].path));
            }
        }
        lemma_expanded_matches_concat(head_e, head_d, list_expanded(e.children), list_dirs(e.children));
    }
}

proof fn lemma_list_expanded_matches(es: Seq<EntryView>)
    ensures
        expanded_matches(list_expanded(es), list_dirs(es)),
    decreases es, 0nat,
{
    if es.len() > 0 {
        assert(decreases_to!(es => es[es.len() - 1]));
        lemma_list_expanded_matches(es.drop_last());
        lemma_entry_expanded_matches(es.last());
        lemma_expanded_matches_concat(
            list_expanded(es.drop_last()),
            list_dirs(es.drop_last()),
            entry_expanded(es.last()),
            entry_dirs(es.last()),
        );
    }
}

/// Every folder of `dirs` is unfolded exactly when its path is in `set`.
pub open spec fn set_agrees(dirs: Seq<EntryView>, set: Seq<Seq<char>>) -> bool {
    forall|k: int| 0 <= k < dirs.len() ==> in_path_set(set, (#[trigger] dirs[k]).path) == dirs[k].expanded
}

proof fn lemma_entry_applied_same(e: EntryView, set: Seq<Seq<char>>)
    requires
        set_agrees(entry_dirs(e), set),
    ensures
        entry_applied(e, set) == e,
    decreases e, 1nat,
{
    if e.is_dir {
        let d = entry_dirs(e);
        assert(d[0] == e);
        let c = list_dirs(e.children);
        assert forall|k: int| 0 <= k < c.len() implies in_path_set(set, (#[trigger] c[k]).path)
            == c[k].expanded by {
            assert(d[k + 1] == c[k]);
        }
        lemma_list_applied_same(e.children, set);
    }
}

proof fn lemma_list_applied_same(es: Seq<EntryView>, set: Seq<Seq<char>>)
    requires
        set_agrees(list_dirs(es), set),
    ensures
        list_applied(es, set) == es,
    decreases es, 0nat,
{
    if es.len() > 0 {
        assert(decreases_to!(es => es[es.len() - 1]));
        let a = list_dirs(es.drop_last());
        let b = entry_dirs(es.last());
        let d = list_dirs(es);
        assert(d == a + b);
        assert forall|k: int| 0 <= k < a.len() implies in_path_set(set, (#[trigger] a[k]).path)
            == a[k].expanded by {
            assert(d[k] == a[k]);
        }
        assert forall|k: int| 0 <= k < b.len() implies in_path_set(set, (#[trigger] b[k]).path)
            == b[k].expanded by {
            assert(d[k + a.len()] == b[k]);
        }
        lemma_list_applied_same(es.drop_last(), set);
        lemma_entry_applied_same(es.last(), set);
        assert(list_applied(es, set) =~= es);
    }
}

/// Law: giving a tree back the set of its own unfolded folders (what a
/// rescan does) leaves it as it was, when no two of its folders have the
/// same path.
pub proof fn lemma_folded_state_kept(t: Seq<EntryView>)
    requires
        forall|i: int, j: int|
            0 <= i < j < list_dirs(t).len() ==> !same_path(
                (#[trigger] list_dirs(t)[i]).path,
                (#[trigger] list_dirs(t)[j]).path,
            ),
    ensures
        list_applied(t, list_expanded(t)) == t,
{
    let d = list_dirs(t);
    let x = list_expanded(t);
    lemma_list_expanded_matches(t);
    assert forall|k: int| 0 <= k < d.len() implies in_path_set(x, (#[trigger] d[k]).path)
        == d[k].expanded by {
        if d[k].expanded {
            assert(path_listed(x, d[k].path));
            let j = choose|j: int| 0 <= j < x.len() && #[trigger] x[j] == d[k].path;
            assert(same_path(x[j], d[k].path));
        }
        if in_path_set(x, d[k].path) {
            let j = choose|j: int| 0 <= j < x.len() && same_path(#[trigger] x[j], d[k].path);
            assert(open_dir_at(d, x[j]));
            let m = choose|m: int| 0 <= m < d.len() && (#[trigger] d[m]).expanded && d[m].path == x[j];
            if m < k {
                assert(!same_path(d[m].path, d[k].path));
            } else if m > k {
                assert(!same_path(d[k].path, d[m].path));
            }
        }
    }
    lemma_list_applied_same(t, x);
}

/// Each folder is unfolded exactly when its path is
/// in `expanded`.
pub fn apply_expanded_dirs(entries: &mut Vec<FileEntry>, expanded: &[String])
    ensures
        entries_view(final(entries)@) == list_applied(
            entries_view(old(entries)@),
            strings_view(expanded@),
        ),
    decreases entries_view(old(entries)@),
{
    let ghost ov = entries_view(entries@);
    let ghost set = strings_view(expanded@);
    proof {
        lemma_entries_view(entries@);
        lemma_list_applied(ov, set);
    }
    let mut i: usize = 0;
    while i < entries.len()
        invariant
            i <= entries@.len(),
            ov == entries_view(old(entries)@),
            set == strings_view(expanded@),
            ov.len() == entries@.len(),
            list_applied(ov, set).len() == ov.len(),
            forall|k: int| 0 <= k < ov.len() ==> #[trigger] list_applied(ov, set)[k] == entry_applied(ov[k], set),
            forall|k: int| 0 <= k < i ==> #[trigger] entry_view(entries@[k]) == list_applied(ov, set)[k],
            forall|k: int| i <= k < entries@.len() ==> #[trigger] entry_view(entries@[k]) == ov[k],
        decreases entries@.len() - i,
    {
        let ghost before = entries@;
        let ghost e0 = ov[i as int];
        assert(entry_view(entries@[i as int]) == e0);
        if entries[i].is_dir {
            let open = in_path_set_exec(expanded, entries[i].path.as_str());
            proof {
                assert(decreases_to!(ov => ov[i as int]));
                assert(decreases_to!(ov[i as int] => ov[i as int].children));
            }
            let e = &mut entries[i];
            e.expanded = open;
            assert(entries_view(e.children@) == ov[i as int].children);
            apply_expanded_dirs(&mut e.children, expanded);
            assert(entries_view(e.children@) == list_applied(e0.children, set));
            assert(entry_view(*e) == entry_applied(e0, set));
        }
        proof {
            assert forall|k: int| 0 <= k < entries@.len() && k != i implies entries@[k] == before[k] by {}
            assert(entry_view(entries@[i as int]) == entry_applied(e0, set));
        }
        i += 1;
    }
    proof {
        lemma_entries_view(entries@);
        assert(entries_view(entries@) =~= list_applied(ov, set));
    }
}

/// Where the export dialog starts: the file name of the default export
/// path, or `untitled` with the format's extension.
pub fn export_dialog_name(default_path: &str, format: ExportFormat) -> (r: String)
    ensures
        r@ == match file_name(default_path@) {
            Some(n) => n,
            None => "untitled."@ + format_extension(format),
        },
{
    match crate::paths::path_file_name(default_path) {
        Some(n) => n,
        None => {
            let mut out = chars_of("untitled.");
            extend(&mut out, &chars_of(format.extension()));
            string_from(&out)
        },
    }
}

/// The next export generation (`wrapping_add(1)`).
pub open spec fn next_generation(g: u64) -> u64 {
    if g == u64::MAX {
        0
    } else {
        (g + 1) as u64
    }
}

/// The export state of the window: whether an export is running, which
/// one is current, the floating panels (an export opens and closes the
/// export and recent panels), and the status line.
#[derive(Debug)]
pub struct ExportSession {
    pub exporting: bool,
    pub generation: u64,
    pub panels: FloatingPanels,
    pub status: String,
}

/// What the save dialog gave back.
#[derive(Debug)]
pub enum PathChoice {
    /// A path was chosen.
    Chosen(String),
    /// The dialog was dismissed.
    Cancelled,
    /// The dialog reported an error.
    Failed(String),
    /// The dialog went away without an answer.
    Closed,
}

/// How an export ended: the written path and the command used, or the
/// error text.
#[derive(Debug)]
pub enum ExportOutcome {
    Done { path: String, command: Option<String> },
    Failed(String),
}

/// The session with only the status line changed.
pub open spec fn with_status(s: ExportSession, prev: ExportSession, status: Seq<char>) -> bool {
    &&& s.exporting == prev.exporting
    &&& s.generation == prev.generation
    &&& s.panels == prev.panels
    &&& s.status@ == status
}

/// The session left as it was.
pub open spec fn unchanged(s: ExportSession, prev: ExportSession) -> bool {
    with_status(s, prev, prev.status@)
}

impl ExportSession {
    /// The state of a fresh window: no export running or made, both panels
    /// closed, and the status line "Ready".
    pub fn new() -> (r: Self)
        ensures
            !r.exporting,
            r.generation == 0,
            open_panels(r.panels) == 0,
            r.status@ == "Ready"@,
    {
        ExportSession {
            exporting: false,
            generation: 0,
            panels: FloatingPanels::new(),
            status: string_from(&chars_of("Ready")),
        }
    }

    /// The start of `export_current`: refused while an export runs or with
    /// no document; otherwise a new export becomes current and the save
    /// dialog is to be opened (`true`).
    pub fn start(&mut self, format: ExportFormat, has_document: bool) -> (proceed: bool)
        ensures
            old(self).exporting ==> !proceed && with_status(
                *final(self),
                *old(self),
                "正在导出，请稍候..."@,
            ),
            !old(self).exporting && !has_document ==> !proceed && with_status(
                *final(self),
                *old(self),
                "没有可导出的文档"@,
            ),
            !old(self).exporting && has_document ==> {
                &&& proceed
                &&& final(self).exporting
                &&& final(self).generation == next_generation(old(self).generation)
                &&& final(self).panels == FloatingPanels {
                    export: false,
                    recent_open: false,
                    ..old(self).panels
                }
                &&& final(self).status@ == "请选择 "@ + format_label(format) + " 的导出位置..."@
            },
    {
        if self.exporting {
            self.status = string_from(&chars_of("正在导出，请稍候..."));
            return false;
        }
        if !has_document {
            self.status = string_from(&chars_of("没有可导出的文档"));
            return false;
        }
        self.panels.export = false;
        self.exporting = true;
        self.generation = if self.generation == u64::MAX {
            0
        } else {
            self.generation + 1
        };
        self.panels.recent_open = false;
        let mut msg = chars_of("请选择 ");
        extend(&mut msg, &chars_of(format.label()));
        extend(&mut msg, &chars_of(" 的导出位置..."));
        self.status = string_from(&msg);
        true
    }

    /// The save dialog answered for export `token`: an answer for an export
    /// that is no longer current changes nothing; a chosen path comes back
    /// with the format's extension, to be exported.
    pub fn path_chosen(&mut self, token: u64, format: ExportFormat, choice: PathChoice) -> (r:
        Option<String>)
        ensures
            token != old(self).generation ==> r is None && unchanged(*final(self), *old(self)),
            token == old(self).generation ==> match choice {
                PathChoice::Chosen(p) => {
                    &&& r is Some
                    &&& r->0@ == normalized_export_path(p@, format)
                    &&& with_status(
                        *final(self),
                        *old(self),
                        "正在导出 "@ + format_label(format) + "..."@,
                    )
                },
                PathChoice::Cancelled => {
                    &&& r is None
                    &&& with_status(
                        *final(self),
                        ExportSession { exporting: false, ..*old(self) },
                        "已取消导出"@,
                    )
                },
                PathChoice::Failed(e) => {
                    &&& r is None
                    &&& with_status(
                        *final(self),
                        ExportSession {
                            exporting: false,
                            panels: FloatingPanels { export: true, ..old(self).panels },
                            ..*old(self)
                        },
                        "导出位置选择失败: "@ + e@,
                    )
                },
                PathChoice::Closed => {
                    &&& r is None
                    &&& with_status(
                        *final(self),
                        ExportSession { exporting: false, ..*old(self) },
                        "导出位置选择器已关闭"@,
                    )
                },
            },
    {
        if token != self.generation {
            return None;
        }
        match choice {
            PathChoice::Chosen(p) => {
                let out = normalize_export_path(p, format);
                let mut msg = chars_of("正在导出 ");
                extend(&mut msg, &chars_of(format.label()));
                extend(&mut msg, &chars_of("..."));
                self.status = string_from(&msg);
                Some(out)
            },
            PathChoice::Cancelled => {
                self.exporting = false;
                self.status = string_from(&chars_of("已取消导出"));
                None
            },
            PathChoice::Failed(e) => {
                self.exporting = false;
                let mut msg = chars_of("导出位置选择失败: ");
                extend(&mut msg, &chars_of(e.as_str()));
                self.status = string_from(&msg);
                self.panels.export = true;
                None
            },
            PathChoice::Closed => {
                self.exporting = false;
                self.status = string_from(&chars_of("导出位置选择器已关闭"));
                None
            },
        }
    }

    /// Export `token` ended: ignored when it is no longer current;
    /// otherwise the export stops and the status tells the outcome.
    pub fn finished(&mut self, token: u64, outcome: ExportOutcome)
        ensures
            token != old(self).generation ==> unchanged(*final(self), *old(self)),
            token == old(self).generation ==> match outcome {
                ExportOutcome::Done { path, command } => with_status(
                    *final(self),
                    ExportSession {
                        exporting: false,
                        panels: FloatingPanels { export: false, ..old(self).panels },
                        ..*old(self)
                    },
                    match command {
                        Some(c) => "已导出: "@ + path@ + " ("@ + c@ + ")"@,
                        None => "已导出: "@ + path@,
                    },
                ),
                ExportOutcome::Failed(e) => with_status(
                    *final(self),
                    ExportSession {
                            exporting: false,
                            panels: FloatingPanels { export: true, ..old(self).panels },
                            ..*old(self)
                        },
                    "导出失败: "@ + e@,
                ),
            },
    {
        if token != self.generation {
            return;
        }
        self.exporting = false;
        match outcome {
            ExportOutcome::Done { path, command } => {
                let mut msg = chars_of("已导出: ");
                extend(&mut msg, &chars_of(path.as_str()));
                match command {
                    Some(c) => {
                        extend(&mut msg, &chars_of(" ("));
                        extend(&mut msg, &chars_of(c.as_str()));
                        extend(&mut msg, &chars_of(")"));
                    },
                    None => {},
                }
                self.status = string_from(&msg);
                self.panels.export = false;
            },
            ExportOutcome::Failed(e) => {
                let mut msg = chars_of("导出失败: ");
                extend(&mut msg, &chars_of(e.as_str()));
                self.status = string_from(&msg);
                self.panels.export = true;
            },
        }
    }

    /// Stop waiting for a running export; its answer
    /// will then be ignored.
    pub fn cancel_wait(&mut self)
        ensures
            !old(self).exporting ==> unchanged(*final(self), *old(self)),
            old(self).exporting ==> {
                &&& !final(self).exporting
                &&& final(self).generation == next_generation(old(self).generation)
                &&& final(self).panels == FloatingPanels {
                    export: false,
                    recent_open: false,
                    ..old(self).panels
                }
                &&& final(self).status@ == "已停止等待导出结果；后台命令会在超时后自动清理。"@
            },
    {
        if !self.exporting {
            return;
        }
        self.generation = if self.generation == u64::MAX {
            0
        } else {
            self.generation + 1
        };
        self.exporting = false;
        self.panels.export = false;
        self.panels.recent_open = false;
        self.status = string_from(&chars_of("已停止等待导出结果；后台命令会在超时后自动清理。"));
    }
}

/// Law: once waiting for an export is given up, or a new export starts,
/// the answers of the one before are ignored: the generation moves on.
pub proof fn lemma_generation_moves_on(g: u64)
    ensures
        next_generation(g) != g,
{
}

/// Whether a path names a Markdown file: its extension is `md` in any
/// ASCII case.
pub open spec fn markdown_path(path: Seq<char>) -> bool {
    match extension(path) {
        Some(e) => eq_ignore_case(e, "md"@),
        None => false,
    }
}

/// Whether a path names a Markdown file.
pub fn is_markdown_path(path: &str) -> (r: bool)
    ensures
        r == markdown_path(path@),
{
    match path_extension(path) {
        Some(e) => eq_ignore_case_exec(&chars_of(e.as_str()), &chars_of("md")),
        None => false,
    }
}

/// The command-line arguments that name Markdown
/// files, in order.
pub fn initial_open_paths(args: &[String]) -> (r: Vec<String>)
    ensures
        strings_view(r@) == strings_view(args@).filter(|p: Seq<char>| markdown_path(p)),
{
    let ghost all = strings_view(args@);
    let ghost f = |p: Seq<char>| markdown_path(p);
    let mut out: Vec<String> = Vec::new();
    let mut i: usize = 0;
    assert(all.take(0).filter(f) =~= Seq::<Seq<char>>::empty()) by {
        reveal(Seq::filter);
    }
    while i < args.len()
        invariant
            i <= args@.len(),
            all == strings_view(args@),
            f == (|p: Seq<char>| markdown_path(p)),
            strings_view(out@) == all.take(i as int).filter(f),
        decreases args@.len() - i,
    {
        proof {
            reveal(Seq::filter);
            assert(all.take(i + 1).drop_last() =~= all.take(i as int));
            assert(all.take(i + 1).last() == args@[i as int]@);
        }
        let ghost before = strings_view(out@);
        if is_markdown_path(args[i].as_str()) {
            out.push(args[i].clone());
            assert(strings_view(out@) =~= before.push(args@[i as int]@));
        }
        i += 1;
    }
    assert(all.take(i as int) =~= all);
    out
}

/// The path part of an open-file URL: after `file://` and then
/// `localhost` when present; the text as is when it has no `file://`.
pub open spec fn url_path_text(url: Seq<char>) -> Seq<char> {
    if starts_with(url, "file://"@) {
        let rest = url.skip(7);
        if starts_with(rest, "localhost"@) {
            rest.skip(9)
        } else {
            rest
        }
    } else {
        url
    }
}

/// The decoded path of the URL when it names a
/// Markdown file.
pub open spec fn open_url_path(url: Seq<char>) -> Option<Seq<char>> {
    let p = percent_decoded(url_path_text(url));
    if markdown_path(p) {
        Some(p)
    } else {
        None
    }
}

/// The path a file URL names, if it names one.
pub fn path_from_open_url(url: &str) -> (r: Option<String>)
    ensures
        opt_view(r) == open_url_path(url@),
{
    let u = chars_of(url);
    let scheme = chars_of("file://");
    let host = chars_of("localhost");
    proof {
        reveal_strlit("file://");
        reveal_strlit("localhost");
    }
    let text = if matches_at_exec(&u, 0, &scheme) {
        let n = u.len();
        let rest = slice_to_vec(&u, 7, n);
        assert(rest@ =~= u@.skip(7));
        if matches_at_exec(&rest, 0, &host) {
            let m = rest.len();
            let r = slice_to_vec(&rest, 9, m);
            assert(r@ =~= rest@.skip(9));
            r
        } else {
            rest
        }
    } else {
        u
    };
    let path = percent_decode(string_from(&text).as_str());
    if is_markdown_path(path.as_str()) {
        Some(path)
    } else {
        None
    }
}

/// The status after outside changes were taken into open documents: none
/// when no document changed.
pub open spec fn reload_text(reloaded: nat) -> Option<Seq<char>> {
    if reloaded == 0 {
        None
    } else if reloaded == 1 {
        Some("已使用外部修改同步当前 Markdown 内容"@)
    } else {
        Some("已使用外部修改同步 "@ + decimal(reloaded) + " 个 Markdown 文档"@)
    }
}

/// The status line of `sync_open_documents_from_disk`.
pub fn reload_message(reloaded: usize) -> (r: Option<String>)
    ensures
        opt_view(r) == reload_text(reloaded as nat),
{
    if reloaded == 0 {
        None
    } else if reloaded == 1 {
        Some(string_from(&chars_of("已使用外部修改同步当前 Markdown 内容")))
    } else {
        let mut m = chars_of("已使用外部修改同步 ");
        push_decimal(&mut m, reloaded);
        extend(&mut m, &chars_of(" 个 Markdown 文档"));
        Some(string_from(&m))
    }
}

/// The file to reopen, the last active one or else
/// the most recent, when its extension is supported (whether it still
/// exists is checked by the caller).
pub open spec fn restore_choice(
    last_active: Option<Seq<char>>,
    recent: Seq<Seq<char>>,
    exts: Seq<Seq<char>>,
) -> Option<Seq<char>> {
    let candidate = match last_active {
        Some(p) => Some(p),
        None => if recent.len() > 0 {
            Some(recent[0])
        } else {
            None
        },
    };
    match candidate {
        Some(p) => if has_supported_extension(p, exts) {
            Some(p)
        } else {
            None
        },
        None => None,
    }
}

/// The file to reopen.
pub fn restore_candidate(
    last_active_file: Option<&str>,
    recent_files: &[String],
    supported_extensions: &[String],
) -> (r: Option<String>)
    ensures
        opt_view(r) == restore_choice(
            match last_active_file {
                Some(p) => Some(p@),
                None => None,
            },
            strings_view(recent_files@),
            strings_view(supported_extensions@),
        ),
{
    let candidate: String = match last_active_file {
        Some(p) => string_from(&chars_of(p)),
        None => {
            if recent_files.len() > 0 {
                string_from(&chars_of(recent_files[0].as_str()))
            } else {
                return None;
            }
        },
    };
    if is_supported_path(candidate.as_str(), supported_extensions) {
        Some(candidate)
    } else {
        None
    }
}

/// The status when a file whose extension is not supported is to be opened.
pub fn unsupported_file_message(supported_extensions: &[String], path: &str) -> (r: String)
    ensures
        r@ == "只能打开 Markdown 文件 ("@ + extensions_label(strings_view(supported_extensions@))
            + "): "@ + path@,
{
    let mut m = chars_of("只能打开 Markdown 文件 (");
    extend(&mut m, &chars_of(supported_extensions_label(supported_extensions).as_str()));
    extend(&mut m, &chars_of("): "));
    extend(&mut m, &chars_of(path));
    string_from(&m)
}

/// The script that applies the theme, font and size to the preview before
/// handing it the rendering: the theme name and font stack as JSON (with
/// fallbacks where they could not be written), the size in pixels.
pub open spec fn style_script_text(
    theme_json: Option<Seq<char>>,
    fonts_json: Option<Seq<char>>,
    font_size: nat,
    update: Seq<char>,
) -> Seq<char> {
    "document.documentElement.dataset.theme = "@ + match theme_json {
        Some(t) => t,
        None => "\"light\""@,
    } + ";document.documentElement.style.setProperty('--font-main', "@ + match fonts_json {
        Some(f) => f,
        None => "\"Alibaba PuHuiTi 3.0, sans-serif\""@,
    } + ");document.documentElement.style.setProperty('--font-size-base', '"@ + decimal(font_size)
        + "px');"@ + update
}

/// The script for the current theme, font family and size,
/// followed by `update`.
pub fn preview_style_script(theme: ThemeMode, font_family: &str, font_size: u32, update: &str) -> (r:
    String)
    ensures
        r@ == style_script_text(
            Some(json_text(preview_theme(theme))),
            Some(json_text(preview_fonts(font_family@))),
            font_size as nat,
            update@,
        ),
{
    let theme_json = json_string(preview_theme_name(theme));
    let fonts = preview_font_stack(font_family);
    let fonts_json = json_string(fonts.as_str());
    let mut out = chars_of("document.documentElement.dataset.theme = ");
    match theme_json {
        Some(t) => extend(&mut out, &chars_of(t.as_str())),
        None => extend(&mut out, &chars_of("\"light\"")),
    }
    extend(&mut out, &chars_of(";document.documentElement.style.setProperty('--font-main', "));
    match fonts_json {
        Some(f) => extend(&mut out, &chars_of(f.as_str())),
        None => extend(&mut out, &chars_of("\"Alibaba PuHuiTi 3.0, sans-serif\"")),
    }
    extend(&mut out, &chars_of(");document.documentElement.style.setProperty('--font-size-base', '"));
    push_decimal(&mut out, font_size as usize);
    extend(&mut out, &chars_of("px');"));
    extend(&mut out, &chars_of(update));
    string_from(&out)
}

/// The preview shows unless the editor shows
/// only the source or a floating panel is open.
pub fn preview_visible(
    mode: EditorMode,
    show_settings: bool,
    show_export: bool,
    show_quick_open: bool,
    show_recent_open: bool,
) -> (r: bool)
    ensures
        r == (mode != EditorMode::Source && !(show_settings || show_export || show_quick_open
            || show_recent_open)),
{
    mode != EditorMode::Source && !(show_settings || show_export || show_quick_open
        || show_recent_open)
}

/// The trimmed family when it is not blank and not
/// the current one.
pub open spec fn font_family_change(current: Seq<char>, value: Seq<char>) -> Option<Seq<char>> {
    let v = trim(value);
    if v.len() == 0 || current == v {
        None
    } else {
        Some(v)
    }
}

/// The new font family, if the text gives one.
pub fn font_family_update(current: &str, value: &str) -> (r: Option<String>)
    ensures
        opt_view(r) == font_family_change(current@, value@),
{
    let v = trim_str(&chars_of(value));
    if v.len() == 0 {
        return None;
    }
    let (_, eq) = crate::text::compare_chars(&chars_of(current), &v);
    if eq {
        None
    } else {
        Some(string_from(&v))
    }
}

/// The folder of the document's file, which the
/// preview resolves relative resources against.
pub fn document_base_dir(document: &DocumentState) -> (r: Option<String>)
    ensures
        opt_view(r) == match document.path {
            Some(p) => parent(p@),
            None => None,
        },
{
    match &document.path {
        Some(p) => path_parent(p.as_str()),
        None => None,
    }
}

/// The document with the outline and statistics of its
/// rendering.
pub fn with_rendered(document: DocumentState, rendered: &RenderedDocument) -> (r: DocumentState)
    ensures
        outline_view(r.outline@) == outline_view(rendered.outline@),
        r.stats == rendered.stats,
        r.path == document.path,
        r.title == document.title,
        r.content == document.content,
        r.revision == document.revision,
        r.dirty == document.dirty,
        r.cursor == document.cursor,
        r.selection == document.selection,
{
    let mut outline: Vec<OutlineItem> = Vec::new();
    let mut i: usize = 0;
    while i < rendered.outline.len()
        invariant
            i <= rendered.outline@.len(),
            outline_view(outline@) == outline_view(rendered.outline@).take(i as int),
        decreases rendered.outline@.len() - i,
    {
        let item = &rendered.outline[i];
        let ghost before = outline_view(outline@);
        outline.push(
            OutlineItem {
                level: item.level,
                title: string_from(&chars_of(item.title.as_str())),
                anchor: string_from(&chars_of(item.anchor.as_str())),
                line: item.line,
            },
        );
        assert(outline_view(outline@) =~= before.push(item.view_of()));
        assert(outline_view(rendered.outline@).take(i + 1) =~= outline_view(rendered.outline@).take(
            i as int,
        ).push(item.view_of()));
        i += 1;
    }
    assert(outline_view(rendered.outline@).take(i as int) =~= outline_view(rendered.outline@));
    let mut document = document;
    document.outline = outline;
    document.stats = rendered.stats;
    document
}


/// The floating panels of the window.
#[derive(Debug, Clone, Copy)]
pub enum Panel {
    Settings,
    Export,
    QuickOpen,
    RecentOpen,
}

/// Which floating panels are open.
#[derive(Debug, Clone, Copy)]
pub struct FloatingPanels {
    pub settings: bool,
    pub export: bool,
    pub quick_open: bool,
    pub recent_open: bool,
}

/// Whether `which` is open.
pub open spec fn panel_open(p: FloatingPanels, which: Panel) -> bool {
    match which {
        Panel::Settings => p.settings,
        Panel::Export => p.export,
        Panel::QuickOpen => p.quick_open,
        Panel::RecentOpen => p.recent_open,
    }
}

/// The panels after `which` was toggled: it flips, every other closes.
pub open spec fn toggled_panels(p: FloatingPanels, which: Panel) -> FloatingPanels {
    let now = !panel_open(p, which);
    FloatingPanels {
        settings: now && which is Settings,
        export: now && which is Export,
        quick_open: now && which is QuickOpen,
        recent_open: now && which is RecentOpen,
    }
}

/// How many panels are open.
pub open spec fn open_panels(p: FloatingPanels) -> nat {
    (if p.settings { 1nat } else { 0nat }) + (if p.export { 1nat } else { 0nat }) + (if p.quick_open {
        1nat
    } else {
        0nat
    }) + (if p.recent_open { 1nat } else { 0nat })
}

impl FloatingPanels {
    /// No panel open.
    pub fn new() -> (r: Self)
        ensures
            open_panels(r) == 0,
    {
        FloatingPanels { settings: false, export: false, quick_open: false, recent_open: false }
    }

    /// Whether any panel is open.
    pub fn any_open(&self) -> (r: bool)
        ensures
            r == (open_panels(*self) > 0),
    {
        self.settings || self.export || self.quick_open || self.recent_open
    }

    /// The toggle actions of the toolbar and the key bindings: the panel
    /// flips and every other one closes.
    pub fn toggle(&mut self, which: Panel)
        ensures
            *final(self) == toggled_panels(*old(self), which),
    {
        let now = match which {
            Panel::Settings => !self.settings,
            Panel::Export => !self.export,
            Panel::QuickOpen => !self.quick_open,
            Panel::RecentOpen => !self.recent_open,
        };
        self.settings = now && matches!(which, Panel::Settings);
        self.export = now && matches!(which, Panel::Export);
        self.quick_open = now && matches!(which, Panel::QuickOpen);
        self.recent_open = now && matches!(which, Panel::RecentOpen);
    }

    /// With no file in the workspace the open dialog
    /// is shown instead (`false`, panels unchanged); otherwise quick open
    /// toggles.
    pub fn toggle_quick_open(&mut self, has_files: bool) -> (toggled: bool)
        ensures
            toggled == has_files,
            has_files ==> *final(self) == toggled_panels(*old(self), Panel::QuickOpen),
            !has_files ==> *final(self) == *old(self),
    {
        if !has_files {
            return false;
        }
        self.toggle(Panel::QuickOpen);
        true
    }

    /// Closes every panel, as the close action and the start of a workspace
    /// search do.
    pub fn close_all(&mut self)
        ensures
            open_panels(*final(self)) == 0,
    {
        self.settings = false;
        self.export = false;
        self.quick_open = false;
        self.recent_open = false;
    }
}

/// After a toggle at most one panel is open, and it is the toggled one;
/// toggling an open panel closes them all; toggling a panel twice from a
/// window with no panel open leaves none open.
pub proof fn lemma_one_panel_at_a_time(p: FloatingPanels, which: Panel)
    ensures
        open_panels(toggled_panels(p, which)) <= 1,
        forall|q: Panel| #[trigger] panel_open(toggled_panels(p, which), q) ==> q == which,
        panel_open(p, which) ==> open_panels(toggled_panels(p, which)) == 0,
        open_panels(p) == 0 ==> open_panels(toggled_panels(toggled_panels(p, which), which)) == 0,
{
    assert forall|q: Panel| #[trigger] panel_open(toggled_panels(p, which), q) implies q == which by {
        match q {
            Panel::Settings => {},
            Panel::Export => {},
            Panel::QuickOpen => {},
            Panel::RecentOpen => {},
        }
        match which {
            Panel::Settings => {},
            Panel::Export => {},
            Panel::QuickOpen => {},
            Panel::RecentOpen => {},
        }
    }
}


fn copy_strings(v: &[String]) -> (r: Vec<String>)
    ensures
        strings_view(r@) == strings_view(v@),
{
    let mut out: Vec<String> = Vec::new();
    let mut i: usize = 0;
    while i < v.len()
        invariant
            i <= v@.len(),
            strings_view(out@) == strings_view(v@).take(i as int),
        decreases v@.len() - i,
    {
        let ghost before = strings_view(out@);
        out.push(string_from(&chars_of(v[i].as_str())));
        assert(strings_view(out@) =~= before.push(v@[i as int]@));
        assert(strings_view(v@).take(i + 1) =~= strings_view(v@).take(i as int).push(v@[i as int]@));
        i += 1;
    }
    assert(strings_view(v@).take(i as int) =~= strings_view(v@));
    out
}

/// The workspace of a fresh window: the configured editor mode, the
/// configured sidebar mode as it is shown, the configured recent files, and
/// `first` as the only, active document; no folder, tree or queries.
pub fn startup_workspace(config: &AppConfig, first: DocumentState) -> (r: WorkspaceState)
    ensures
        r.root is None,
        r.file_tree@.len() == 0,
        r.open_documents@ == seq![first],
        r.active_document == 0,
        strings_view(r.recent_files@) == strings_view(config.recent_files@),
        r.sidebar_mode == shown_sidebar(config.sidebar_mode),
        r.editor_mode == config.editor_mode,
        r.global_query@.len() == 0,
        r.quick_open_query@.len() == 0,
{
    let mut open_documents: Vec<DocumentState> = Vec::new();
    open_documents.push(first);
    WorkspaceState {
        root: None,
        file_tree: Vec::new(),
        open_documents,
        active_document: 0,
        recent_files: copy_strings(&config.recent_files),
        sidebar_mode: shown_sidebar_mode(config.sidebar_mode),
        editor_mode: config.editor_mode,
        global_query: String::new(),
        quick_open_query: String::new(),
    }
}

} // verus!
