//! Editor settings: themes, modes, the configuration record and the rules
//! that a loaded configuration is brought into line with.
use vstd::prelude::*;
use crate::paths::{extension, extension_chars, join, path_join};
use crate::text::{
    ascii_lowercase, chars_of, blank, is_blank, lower_seq, string_from, trim, trim_start_char,
    trim_start_char_exec, trim_str,
};

verus! {

/// The colour theme.
#[derive(Debug, Clone, Copy, PartialEq, Eq, Structural)]
pub enum ThemeMode {
    Light,
    Dark,
    Sepia,
    Typora,
}

pub open spec fn theme_label(mode: ThemeMode) -> Seq<char> {
    match mode {
        ThemeMode::Light => "浅色"@,
        ThemeMode::Dark => "深色"@,
        ThemeMode::Sepia => "护眼"@,
        ThemeMode::Typora => "Typora"@,
    }
}

impl ThemeMode {
    /// The name shown for the theme.
    pub fn label(self) -> (r: &'static str)
        ensures
            r@ == theme_label(self),
    {
        match self {
            ThemeMode::Light => "浅色",
            ThemeMode::Dark => "深色",
            ThemeMode::Sepia => "护眼",
            ThemeMode::Typora => "Typora",
        }
    }

    /// The themes in the order the theme picker lists them.
    pub fn all() -> (r: [ThemeMode; 4])
        ensures
            r@ == seq![ThemeMode::Light, ThemeMode::Typora, ThemeMode::Sepia, ThemeMode::Dark],
    {
        let r = [ThemeMode::Light, ThemeMode::Typora, ThemeMode::Sepia, ThemeMode::Dark];
        assert(r@ =~= seq![ThemeMode::Light, ThemeMode::Typora, ThemeMode::Sepia, ThemeMode::Dark]);
        r
    }
}

impl Default for ThemeMode {
    fn default() -> (r: Self)
        ensures
            r == ThemeMode::Light,
    {
        ThemeMode::Light
    }
}

/// How the editor area is split between source and preview.
#[derive(Debug, Clone, Copy, PartialEq, Eq, Structural)]
pub enum EditorMode {
    Source,
    Preview,
    Split,
}

pub open spec fn editor_label(mode: EditorMode) -> Seq<char> {
    match mode {
        EditorMode::Source => "源码"@,
        EditorMode::Preview => "预览"@,
        EditorMode::Split => "分屏"@,
    }
}

impl EditorMode {
    /// The name shown for the mode.
    pub fn label(self) -> (r: &'static str)
        ensures
            r@ == editor_label(self),
    {
        match self {
            EditorMode::Source => "源码",
            EditorMode::Preview => "预览",
            EditorMode::Split => "分屏",
        }
    }
}

impl Default for EditorMode {
    fn default() -> (r: Self)
        ensures
            r == EditorMode::Split,
    {
        EditorMode::Split
    }
}

/// What the sidebar shows.
#[derive(Debug, Clone, Copy, PartialEq, Eq, Structural)]
pub enum SidebarMode {
    Files,
    FileList,
    Recent,
    Outline,
    Search,
}

pub open spec fn sidebar_label(mode: SidebarMode) -> Seq<char> {
    match mode {
        SidebarMode::Files => "文件树"@,
        SidebarMode::FileList => "文件列表"@,
        SidebarMode::Recent => "历史"@,
        SidebarMode::Outline => "大纲"@,
        SidebarMode::Search => "搜索"@,
    }
}

impl SidebarMode {
    /// The name shown for the mode.
    pub fn label(self) -> (r: &'static str)
        ensures
            r@ == sidebar_label(self),
    {
        match self {
            SidebarMode::Files => "文件树",
            SidebarMode::FileList => "文件列表",
            SidebarMode::Recent => "历史",
            SidebarMode::Outline => "大纲",
            SidebarMode::Search => "搜索",
        }
    }
}

impl Default for SidebarMode {
    fn default() -> (r: Self)
        ensures
            r == SidebarMode::Files,
    {
        SidebarMode::Files
    }
}

/// The views of a list of strings.
pub open spec fn strings_view(v: Seq<String>) -> Seq<Seq<char>> {
    v.map_values(|s: String| s@)
}

/// The views of a list of optional strings.
pub open spec fn opt_view(o: Option<String>) -> Option<Seq<char>> {
    match o {
        Some(s) => Some(s@),
        None => None,
    }
}

/// The persisted editor configuration. Paths are held as text.
#[derive(Debug, Clone)]
pub struct AppConfig {
    pub theme_mode: ThemeMode,
    pub editor_mode: EditorMode,
    pub sidebar_mode: SidebarMode,
    pub font_family: String,
    pub font_size: u32,
    pub line_numbers: bool,
    pub soft_wrap: bool,
    pub tab_size: u32,
    pub auto_save: bool,
    pub focus_mode: bool,
    pub typewriter_mode: bool,
    pub pandoc_path: Option<String>,
    pub chromium_path: Option<String>,
    pub default_export_dir: Option<String>,
    pub supported_extensions: Vec<String>,
    pub claim_markdown_association: bool,
    pub last_opened_folder: Option<String>,
    pub last_active_file: Option<String>,
    pub recent_files: Vec<String>,
    pub recent_folders: Vec<String>,
}

pub open spec fn default_font_family_text() -> Seq<char> {
    "Alibaba PuHuiTi 3.0"@
}

/// `true` (the serde default of switches that start on).
pub fn default_true() -> (r: bool)
    ensures
        r,
{
    true
}

/// The default editor font.
pub fn default_font_family() -> (r: String)
    ensures
        r@ == default_font_family_text(),
{
    string_from(&chars_of("Alibaba PuHuiTi 3.0"))
}

/// The default font size.
pub fn default_font_size() -> (r: u32)
    ensures
        r == 16,
{
    16
}

/// The default tab width.
pub fn default_tab_size() -> (r: u32)
    ensures
        r == 4,
{
    4
}

/// The default list of openable extensions: only `md`.
pub fn default_supported_extensions() -> (r: Vec<String>)
    ensures
        strings_view(r@) == seq!["md"@],
{
    let mut r: Vec<String> = Vec::new();
    r.push(string_from(&chars_of("md")));
    assert(strings_view(r@) =~= seq!["md"@]);
    r
}

impl Default for AppConfig {
    fn default() -> (r: Self)
        ensures
            r.theme_mode == ThemeMode::Light,
            r.editor_mode == EditorMode::Split,
            r.sidebar_mode == SidebarMode::Files,
            r.font_family@ == default_font_family_text(),
            r.font_size == 16,
            !r.line_numbers,
            r.soft_wrap,
            r.tab_size == 4,
            !r.auto_save,
            !r.focus_mode,
            !r.typewriter_mode,
            r.pandoc_path is None,
            r.chromium_path is None,
            r.default_export_dir is None,
            strings_view(r.supported_extensions@) == seq!["md"@],
            r.claim_markdown_association,
            r.last_opened_folder is None,
            r.last_active_file is None,
            r.recent_files@.len() == 0,
            r.recent_folders@.len() == 0,
    {
        AppConfig {
            theme_mode: ThemeMode::Light,
            editor_mode: EditorMode::Split,
            sidebar_mode: SidebarMode::Files,
            font_family: default_font_family(),
            font_size: default_font_size(),
            line_numbers: false,
            soft_wrap: true,
            tab_size: default_tab_size(),
            auto_save: false,
            focus_mode: false,
            typewriter_mode: false,
            pandoc_path: None,
            chromium_path: None,
            default_export_dir: None,
            supported_extensions: default_supported_extensions(),
            claim_markdown_association: true,
            last_opened_folder: None,
            last_active_file: None,
            recent_files: Vec::new(),
            recent_folders: Vec::new(),
        }
    }
}

/// One extension as configured: trimmed, without leading dots, lower-cased.
pub open spec fn normalize_ext(e: Seq<char>) -> Seq<char> {
    lower_seq(trim_start_char(trim(e), '.'))
}

/// The extensions of `exts` appended to `acc` in order, normalized, without
/// empty ones and without repeating one already present.
pub open spec fn normalize_exts_onto(exts: Seq<Seq<char>>, acc: Seq<Seq<char>>) -> Seq<Seq<char>>
    decreases exts.len(),
{
    if exts.len() == 0 {
        acc
    } else {
        let e = normalize_ext(exts[0]);
        normalize_exts_onto(
            exts.drop_first(),
            if e.len() == 0 || acc.contains(e) {
                acc
            } else {
                acc.push(e)
            },
        )
    }
}

/// The distinct non-empty normalized extensions in
/// their first order, or only `md` when there are none.
pub open spec fn normalized_extensions(exts: Seq<Seq<char>>) -> Seq<Seq<char>> {
    let r = normalize_exts_onto(exts, Seq::empty());
    if r.len() == 0 {
        seq!["md"@]
    } else {
        r
    }
}

/// The shape every normalized list has.
pub open spec fn well_formed_extensions(r: Seq<Seq<char>>) -> bool {
    &&& r.len() > 0
    &&& forall|i: int| 0 <= i < r.len() ==> #[trigger] r[i].len() > 0
    &&& forall|i: int, j: int| 0 <= i < j < r.len() ==> r[i] != r[j]
}

pub proof fn lemma_normalize_onto(exts: Seq<Seq<char>>, acc: Seq<Seq<char>>)
    requires
        forall|i: int| 0 <= i < acc.len() ==> #[trigger] acc[i].len() > 0,
        forall|i: int, j: int| 0 <= i < j < acc.len() ==> acc[i] != acc[j],
    ensures
        ({
            let r = normalize_exts_onto(exts, acc);
            &&& forall|i: int| 0 <= i < r.len() ==> #[trigger] r[i].len() > 0
            &&& forall|i: int, j: int| 0 <= i < j < r.len() ==> r[i] != r[j]
        }),
    decreases exts.len(),
{
    if exts.len() > 0 {
        let e = normalize_ext(exts[0]);
        let next = if e.len() == 0 || acc.contains(e) {
            acc
        } else {
            acc.push(e)
        };
        if !(e.len() == 0 || acc.contains(e)) {
            assert forall|i: int| 0 <= i < next.len() implies #[trigger] next[i].len() > 0 by {
                if i < acc.len() {
                    assert(next[i] == acc[i]);
                }
            }
            assert forall|i: int, j: int| 0 <= i < j < next.len() implies next[i] != next[j] by {
                if j == acc.len() {
                    assert(next[i] == acc[i]);
                    if next[i] == next[j] {
                        assert(acc.contains(e));
                    }
                }
            }
        }
        lemma_normalize_onto(exts.drop_first(), next);
        assert(normalize_exts_onto(exts, acc) == normalize_exts_onto(exts.drop_first(), next));
    }
}

/// Law: a normalized extension list is never empty, holds no empty entry and
/// no entry twice.
pub proof fn lemma_normalized_extensions_well_formed(exts: Seq<Seq<char>>)
    ensures
        well_formed_extensions(normalized_extensions(exts)),
{
    lemma_normalize_onto(exts, Seq::empty());
    let r = normalize_exts_onto(exts, Seq::empty());
    if r.len() == 0 {
        let m = seq!["md"@];
        reveal_strlit("md");
        assert(m[0].len() > 0);
    }
}

pub(crate) fn normalize_ext_exec(e: &String) -> (r: Vec<char>)
    ensures
        r@ == normalize_ext(e@),
{
    let c = chars_of(e.as_str());
    let t = trim_str(&c);
    let d = trim_start_char_exec(&t, '.');
    ascii_lowercase(&d)
}

pub(crate) fn contains_string(v: &Vec<String>, s: &String) -> (r: bool)
    ensures
        r == strings_view(v@).contains(s@),
{
    let mut i: usize = 0;
    while i < v.len()
        invariant
            i <= v@.len(),
            forall|k: int| 0 <= k < i ==> v@[k]@ != s@,
        decreases v@.len() - i,
    {
        if v[i] == *s {
            assert(strings_view(v@)[i as int] == s@);
            return true;
        }
        i += 1;
    }
    proof {
        if strings_view(v@).contains(s@) {
            let k = choose|k: int| 0 <= k < strings_view(v@).len() && strings_view(v@)[k] == s@;
            assert(v@[k]@ == s@);
        }
    }
    false
}

/// The distinct normalized extensions of a list (`normalized_extensions`).
pub fn normalize_extensions(extensions: &[String]) -> (r: Vec<String>)
    ensures
        strings_view(r@) == normalized_extensions(strings_view(extensions@)),
        well_formed_extensions(strings_view(r@)),
{
    let ghost all = strings_view(extensions@);
    let mut normalized: Vec<String> = Vec::new();
    let mut i: usize = 0;
    assert(all.skip(0) =~= all);
    assert(strings_view(normalized@) =~= Seq::<Seq<char>>::empty());
    while i < extensions.len()
        invariant
            i <= extensions@.len(),
            all == strings_view(extensions@),
            normalize_exts_onto(all.skip(i as int), strings_view(normalized@))
                == normalize_exts_onto(all, Seq::empty()),
        decreases extensions@.len() - i,
    {
        let e = normalize_ext_exec(&extensions[i]);
        let es = string_from(&e);
        assert(all.skip(i as int)[0] == extensions@[i as int]@);
        assert(all.skip(i as int).drop_first() =~= all.skip(i + 1));
        if e.len() == 0 || contains_string(&normalized, &es) {
        } else {
            let ghost before = normalized@;
            normalized.push(es);
            assert(strings_view(normalized@) =~= strings_view(before).push(e@));
        }
        i += 1;
    }
    assert(all.skip(i as int) =~= Seq::<Seq<char>>::empty());
    proof {
        lemma_normalized_extensions_well_formed(all);
    }
    if normalized.len() == 0 {
        let r = default_supported_extensions();
        return r;
    }
    normalized
}

/// ASCII-case-insensitive equality (`str::eq_ignore_ascii_case`).
pub open spec fn eq_ignore_case(a: Seq<char>, b: Seq<char>) -> bool {
    a.len() == b.len() && lower_seq(a) == lower_seq(b)
}

/// Whether the path's extension is one of `exts` (each taken without
/// leading dots), ignoring ASCII case.
pub open spec fn has_supported_extension(path: Seq<char>, exts: Seq<Seq<char>>) -> bool {
    match extension(path) {
        None => false,
        Some(e) => exists|i: int|
            0 <= i < exts.len() && eq_ignore_case(e, trim_start_char(#[trigger] exts[i], '.')),
    }
}

/// `str::eq_ignore_ascii_case` (exec).
pub fn eq_ignore_case_exec(a: &[char], b: &[char]) -> (r: bool)
    ensures
        r == eq_ignore_case(a@, b@),
{
    if a.len() != b.len() {
        return false;
    }
    let la = ascii_lowercase(a);
    let lb = ascii_lowercase(b);
    let mut i: usize = 0;
    while i < la.len()
        invariant
            la@.len() == lb@.len(),
            la@ == lower_seq(a@),
            lb@ == lower_seq(b@),
            i <= la@.len(),
            forall|k: int| 0 <= k < i ==> la@[k] == lb@[k],
        decreases la@.len() - i,
    {
        if la[i] != lb[i] {
            return false;
        }
        i += 1;
    }
    assert(la@ =~= lb@);
    true
}

/// Whether a path has one of the supported extensions.
pub fn is_supported_path(path: &str, supported_extensions: &[String]) -> (r: bool)
    ensures
        r == has_supported_extension(path@, strings_view(supported_extensions@)),
{
    let p = chars_of(path);
    let ext = match extension_chars(&p) {
        None => return false,
        Some(e) => chars_of(e.as_str()),
    };
    let ghost exts = strings_view(supported_extensions@);
    let mut i: usize = 0;
    while i < supported_extensions.len()
        invariant
            i <= supported_extensions@.len(),
            exts == strings_view(supported_extensions@),
            extension(path@) == Some(ext@),
            forall|k: int| 0 <= k < i ==> !eq_ignore_case(ext@, trim_start_char(exts[k], '.')),
        decreases supported_extensions@.len() - i,
    {
        let s = chars_of(supported_extensions[i].as_str());
        let t = trim_start_char_exec(&s, '.');
        assert(exts[i as int] == supported_extensions@[i as int]@);
        if eq_ignore_case_exec(&ext, &t) {
            return true;
        }
        i += 1;
    }
    false
}

/// The views of the paths among `paths` that have a supported extension.
pub open spec fn supported_only(paths: Seq<Seq<char>>, exts: Seq<Seq<char>>) -> Seq<Seq<char>>
    decreases paths.len(),
{
    if paths.len() == 0 {
        Seq::empty()
    } else {
        let rest = supported_only(paths.drop_last(), exts);
        if has_supported_extension(paths.last(), exts) {
            rest.push(paths.last())
        } else {
            rest
        }
    }
}

/// The non-empty entries of `paths`.
pub open spec fn nonempty_only(paths: Seq<Seq<char>>) -> Seq<Seq<char>>
    decreases paths.len(),
{
    if paths.len() == 0 {
        Seq::empty()
    } else {
        let rest = nonempty_only(paths.drop_last());
        if paths.last().len() > 0 {
            rest.push(paths.last())
        } else {
            rest
        }
    }
}

/// The paths of `paths` whose extension is supported, in order (the
/// `retain` of recent files).
pub fn supported_paths(paths: &Vec<String>, exts: &Vec<String>) -> (r: Vec<String>)
    ensures
        strings_view(r@) == supported_only(strings_view(paths@), strings_view(exts@)),
{
    let ghost pv = strings_view(paths@);
    let mut kept: Vec<String> = Vec::new();
    let mut i: usize = 0;
    assert(pv.take(0) =~= Seq::<Seq<char>>::empty());
    while i < paths.len()
        invariant
            i <= paths@.len(),
            pv == strings_view(paths@),
            strings_view(kept@) == supported_only(pv.take(i as int), strings_view(exts@)),
        decreases paths@.len() - i,
    {
        assert(pv.take(i + 1).drop_last() =~= pv.take(i as int));
        if is_supported_path(paths[i].as_str(), exts) {
            let ghost before = kept@;
            kept.push(paths[i].clone());
            assert(strings_view(kept@) =~= strings_view(before).push(pv[i as int]));
        }
        i += 1;
    }
    assert(pv.take(i as int) =~= pv);
    kept
}

/// A number kept within `[lo, hi]` (`Ord::clamp`).
pub open spec fn clamped(v: int, lo: int, hi: int) -> int {
    if v < lo {
        lo
    } else if v > hi {
        hi
    } else {
        v
    }
}

/// Where settings are stored and how a loaded configuration is repaired.
pub struct Settings;

impl Settings {
    /// The settings file: `.markdown-editor-config.toml` in the home
    /// directory, or in the current directory when no home is known.
    pub fn config_path(home: Option<&str>) -> (r: String)
        ensures
            r@ == join(
                match home {
                    Some(h) => h@,
                    None => "."@,
                },
                ".markdown-editor-config.toml"@,
            ),
    {
        let base = match home {
            Some(h) => h,
            None => ".",
        };
        path_join(base, ".markdown-editor-config.toml")
    }

    /// The repairs applied to every configuration that `load` reads: an empty
    /// extension list becomes the default and the list is normalized, a
    /// blank font family becomes the default, font and tab sizes are clamped
    /// to 12..=28 and 2..=8, recent files without a supported extension and
    /// empty recent folders are dropped, and an unsupported last file is
    /// forgotten.
    pub fn normalize_loaded(config: AppConfig) -> (r: AppConfig)
        ensures
            strings_view(r.supported_extensions@) == normalized_extensions(
                if config.supported_extensions@.len() == 0 {
                    seq!["md"@]
                } else {
                    strings_view(config.supported_extensions@)
                },
            ),
            r.font_family@ == if is_blank(config.font_family@) {
                default_font_family_text()
            } else {
                config.font_family@
            },
            r.font_size as int == clamped(config.font_size as int, 12, 28),
            r.tab_size as int == clamped(config.tab_size as int, 2, 8),
            strings_view(r.recent_files@) == supported_only(
                strings_view(config.recent_files@),
                strings_view(r.supported_extensions@),
            ),
            opt_view(r.last_active_file) == match opt_view(config.last_active_file) {
                Some(p) => if has_supported_extension(p, strings_view(r.supported_extensions@)) {
                    Some(p)
                } else {
                    None
                },
                None => None,
            },
            strings_view(r.recent_folders@) == nonempty_only(strings_view(config.recent_folders@)),
            r.theme_mode == config.theme_mode,
            r.editor_mode == config.editor_mode,
            r.sidebar_mode == config.sidebar_mode,
            r.line_numbers == config.line_numbers,
            r.soft_wrap == config.soft_wrap,
            r.auto_save == config.auto_save,
            r.focus_mode == config.focus_mode,
            r.typewriter_mode == config.typewriter_mode,
            opt_view(r.pandoc_path) == opt_view(config.pandoc_path),
            opt_view(r.chromium_path) == opt_view(config.chromium_path),
            opt_view(r.default_export_dir) == opt_view(config.default_export_dir),
            r.claim_markdown_association == config.claim_markdown_association,
            opt_view(r.last_opened_folder) == opt_view(config.last_opened_folder),
    {
        let mut config = config;
        let ghost original = config;
        if config.supported_extensions.len() == 0 {
            config.supported_extensions = default_supported_extensions();
        }
        config.supported_extensions = normalize_extensions(&config.supported_extensions);
        let ff = chars_of(config.font_family.as_str());
        if blank(&ff) {
            config.font_family = default_font_family();
        }
        config.font_size = if config.font_size < 12 {
            12
        } else if config.font_size > 28 {
            28
        } else {
            config.font_size
        };
        config.tab_size = if config.tab_size < 2 {
            2
        } else if config.tab_size > 8 {
            8
        } else {
            config.tab_size
        };
        let recent = supported_paths(&config.recent_files, &config.supported_extensions);
        config.recent_files = recent;
        let drop_last = match &config.last_active_file {
            Some(p) => !is_supported_path(p.as_str(), &config.supported_extensions),
            None => false,
        };
        if drop_last {
            config.last_active_file = None;
        }
        let mut folders: Vec<String> = Vec::new();
        let mut j: usize = 0;
        assert(strings_view(original.recent_folders@).take(0) =~= Seq::<Seq<char>>::empty());
        while j < config.recent_folders.len()
            invariant
                j <= config.recent_folders@.len(),
                config.recent_folders == original.recent_folders,
                strings_view(folders@) == nonempty_only(
                    strings_view(original.recent_folders@).take(j as int),
                ),
            decreases config.recent_folders@.len() - j,
        {
            let ghost pv = strings_view(original.recent_folders@);
            assert(pv.take(j + 1).drop_last() =~= pv.take(j as int));
            let f = chars_of(config.recent_folders[j].as_str());
            if f.len() > 0 {
                let ghost before = folders@;
                folders.push(config.recent_folders[j].clone());
                assert(strings_view(folders@) =~= strings_view(before).push(pv[j as int]));
            }
            j += 1;
        }
        assert(strings_view(original.recent_folders@).take(j as int) =~= strings_view(
            original.recent_folders@,
        ));
        config.recent_folders = folders;
        config
    }
}

} // verus!
