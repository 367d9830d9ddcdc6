//! Fixed texts of the preview and export documents: stylesheets, scripts
//! and the parts of a Word package.
use vstd::prelude::*;

verus! {

/// Extra rules laid over the theme stylesheet: the palettes of the four
/// themes and the preview layout.
pub const MORANDI_ADAPTER_CSS: &'static str = r#"
:root,
:root[data-theme="light"] {
  color-scheme: light;
  --bg-color: #FBFDFB;
  --text-color: #403C3C;
  --h1-color: #7A5F52;
  --h2-color: #506956;
  --h3-color: #7A6F89;
  --h4-color: #6F7F88;
  --h5-color: #8A7A6F;
  --h6-color: #7D7A71;
  --link-color: #506956;
  --link-hover-color: #405946;
  --code-bg-color: #F0F5F3;
  --code-text-color: #403C3C;
  --blockquote-bg-color: #EEF4EF;
  --blockquote-border-color: #7A5F52;
  --table-border-color: #7EA388;
  --th-bg-color: #EAF0EB;
  --paper-color: rgba(255, 255, 255, 0.72);
  --soft-border-color: rgba(126, 163, 136, 0.34);
  --shadow-color: rgba(64, 60, 60, 0.08);
}

:root[data-theme="sepia"] {
  color-scheme: light;
  --bg-color: #F5EFE5;
  --text-color: #423D38;
  --h1-color: #7A5F52;
  --h2-color: #596E58;
  --h3-color: #756A83;
  --h4-color: #6B7A7E;
  --h5-color: #8A7A6F;
  --h6-color: #7D7A71;
  --link-color: #596E58;
  --link-hover-color: #465A47;
  --code-bg-color: #EFE8DC;
  --code-text-color: #403C3C;
  --blockquote-bg-color: #EFE9DD;
  --blockquote-border-color: #8A6C5D;
  --table-border-color: #93A486;
  --th-bg-color: #E8E2D6;
  --paper-color: rgba(255, 250, 241, 0.76);
  --soft-border-color: rgba(138, 122, 111, 0.34);
  --shadow-color: rgba(75, 62, 51, 0.08);
}

:root[data-theme="dark"] {
  color-scheme: dark;
  --bg-color: #252823;
  --text-color: #E7E1D7;
  --h1-color: #D0B6A8;
  --h2-color: #A8B89E;
  --h3-color: #B5AFC8;
  --h4-color: #A7BBC1;
  --h5-color: #CAB4A4;
  --h6-color: #BEB8AA;
  --link-color: #A8B89E;
  --link-hover-color: #C2CFB9;
  --code-bg-color: #1F2926;
  --code-text-color: #E7E1D7;
  --blockquote-bg-color: #2D352D;
  --blockquote-border-color: #D0B6A8;
  --table-border-color: #657A6B;
  --th-bg-color: #303830;
  --paper-color: rgba(32, 35, 31, 0.78);
  --soft-border-color: rgba(168, 184, 158, 0.28);
  --shadow-color: rgba(0, 0, 0, 0.22);
}

/* Typora / GitHub 风格：纯白底、近黑正文、GitHub 蓝链接，干净无暖色。 */
:root[data-theme="typora"] {
  color-scheme: light;
  --bg-color: #FFFFFF;
  --text-color: #1F2328;
  --h1-color: #1F2328;
  --h2-color: #1F2328;
  --h3-color: #1F2328;
  --h4-color: #1F2328;
  --h5-color: #1F2328;
  --h6-color: #636C76;
  --link-color: #0969DA;
  --link-hover-color: #0550AE;
  --code-bg-color: #EFF1F3;
  --code-text-color: #1F2328;
  --blockquote-bg-color: #FFFFFF;
  --blockquote-border-color: #D0D7DE;
  --table-border-color: #D0D7DE;
  --th-bg-color: #F6F8FA;
  --paper-color: #FFFFFF;
  --soft-border-color: #D0D7DE;
  --shadow-color: rgba(31, 35, 40, 0.04);
}

* { box-sizing: border-box; }
html, body { min-height: 100%; }
body {
  margin: 0;
  overflow-y: auto;
  background:
    radial-gradient(circle at top left, rgba(126, 163, 136, 0.16), transparent 34rem),
    linear-gradient(135deg, var(--bg-color), color-mix(in srgb, var(--bg-color) 88%, var(--h2-color)));
  color: var(--text-color);
  font-family: var(--font-main);
  font-size: var(--font-size-base);
  line-height: var(--line-height);
}

/* Typora 主题：纯净背景、无暖色渐变、纸张采用细边框而非重投影。 */
:root[data-theme="typora"] body {
  background: var(--bg-color);
}
:root[data-theme="typora"] .markdown-body {
  border: 1px solid var(--soft-border-color);
  box-shadow: none;
}
:root[data-theme="typora"] .markdown-body h1 {
  border-bottom-color: var(--soft-border-color);
}
:root[data-theme="typora"] .markdown-body h2 {
  border-left: none;
  padding-bottom: 0.3em;
  border-bottom: 1px solid var(--soft-border-color);
}

/* 让预览正文像普通网页一样可以逐字选择文本，而不是整行整块选中 */
.markdown-body,
.markdown-body * {
  -webkit-user-select: text;
  user-select: text;
}

.markdown-body {
  cursor: text;
  -webkit-user-modify: read-only;
}

.markdown-body a,
.markdown-body button,
.markdown-body input,
.markdown-body summary {
  cursor: pointer;
}

.markdown-body ::selection {
  background: color-mix(in srgb, var(--h2-color) 32%, transparent);
}
.markdown-body ::-moz-selection {
  background: color-mix(in srgb, var(--h2-color) 32%, transparent);
}

.markdown-body {
  width: min(var(--write-width), calc(100vw - 4rem));
  min-height: 100vh;
  margin: 0 auto;
  padding: 3.5rem 4rem 6rem;
  background: var(--paper-color);
  color: var(--text-color);
  box-shadow: 0 24px 70px var(--shadow-color);
  font-family: var(--font-main);
  line-height: var(--line-height);
}

.markdown-body h1,
.markdown-body h2,
.markdown-body h3,
.markdown-body h4,
.markdown-body h5,
.markdown-body h6 {
  letter-spacing: 0;
  scroll-margin-top: 2rem;
}

.markdown-body h1 { color: var(--h1-color); border-bottom: 2px solid #DDE6DF; }
.markdown-body h2 { color: var(--h2-color); border-left: 4px solid var(--h2-color); border-bottom: none; }
.markdown-body h3 { color: var(--h3-color); }
.markdown-body h4 { color: var(--h4-color); }
.markdown-body h5 { color: var(--h5-color); }
.markdown-body h6 { color: var(--h6-color); }

.markdown-body p { margin: 0 0 1rem; }
.markdown-body a { color: var(--link-color); }
.markdown-body a:hover { color: var(--link-hover-color); }

.markdown-body p code,
.markdown-body li code,
.markdown-body td code {
  padding: 0.15rem 0.38rem;
  color: var(--h3-color);
  background: var(--code-bg-color);
  border-radius: 5px;
  font-family: var(--font-mono);
  font-size: 0.92em;
}

.markdown-body pre {
  position: relative;
  margin: 1.2rem 0;
  overflow: auto;
  padding: 1.1rem 1.2rem;
  color: var(--code-text-color);
  background: var(--code-bg-color);
  border: 1px solid var(--soft-border-color);
  border-radius: 12px;
}

.markdown-body pre code {
  padding: 0;
  color: inherit;
  background: transparent;
  font-family: var(--font-mono);
  line-height: 1.7;
}

.copy-code-button {
  position: absolute;
  top: 0.55rem;
  right: 0.55rem;
  display: inline-flex;
  align-items: center;
  gap: 0.35rem;
  height: 1.85rem;
  padding: 0 0.6rem;
  color: var(--h2-color);
  background: color-mix(in srgb, var(--bg-color) 86%, white);
  border: 1px solid var(--soft-border-color);
  border-radius: 999px;
  box-shadow: 0 6px 18px var(--shadow-color);
  font-family: var(--font-main);
  font-size: 0.76rem;
  cursor: pointer;
  opacity: 0;
  transform: translateY(-2px);
  transition: opacity 160ms ease, transform 160ms ease, background 160ms ease;
}

.markdown-body pre:hover .copy-code-button,
.copy-code-button:focus-visible,
.copy-code-button.copied {
  opacity: 1;
  transform: translateY(0);
}

.copy-code-button:hover {
  background: var(--th-bg-color);
}

.copy-code-button.copied {
  color: var(--h1-color);
  border-color: color-mix(in srgb, var(--h1-color) 45%, transparent);
}

.copy-icon {
  position: relative;
  width: 0.78rem;
  height: 0.78rem;
  display: inline-block;
}

.copy-icon::before,
.copy-icon::after {
  content: "";
  position: absolute;
  width: 0.52rem;
  height: 0.62rem;
  border: 1.5px solid currentColor;
  border-radius: 0.16rem;
}

.copy-icon::before {
  left: 0;
  top: 0.16rem;
  opacity: 0.55;
}

.copy-icon::after {
  right: 0;
  top: 0;
  background: color-mix(in srgb, var(--code-bg-color) 90%, white);
}

@media print {
  .copy-code-button {
    display: none !important;
  }
}

.markdown-body blockquote {
  margin: 1.25rem 0;
  padding: 0.75rem 1rem 0.75rem 1.1rem;
  color: color-mix(in srgb, var(--text-color) 78%, var(--h1-color));
  background: var(--blockquote-bg-color);
  border-left: 4px solid var(--blockquote-border-color);
  border-radius: 0 10px 10px 0;
}

.markdown-body table {
  width: 100%;
  margin: 1.25rem 0;
  border-collapse: collapse;
}

.markdown-body th,
.markdown-body td {
  border: 1px solid var(--table-border-color);
  padding: 0.55rem 0.75rem;
}

.markdown-body th { background: var(--th-bg-color); }
.markdown-body img { max-width: 100%; height: auto; border-radius: 8px; }
.markdown-body hr {
  border: none;
  border-top: 1px solid var(--soft-border-color);
  margin: 2rem 0;
}

.markdown-body ul,
.markdown-body ol {
  padding-left: 1.8rem;
}

.markdown-body li { margin: 0.2rem 0; }
.markdown-body input[type="checkbox"] {
  width: 1em;
  height: 1em;
  margin: 0 0.45em 0 -1.45em;
  accent-color: var(--h2-color);
}

.markdown-body .empty { color: var(--h6-color); }
"#;

/// The script that handles text selection in the preview.
pub const SELECTION_SCRIPT_BODY: &'static str = r#"
(function () {
  if (window.__moranote_selection_bound) return;
  window.__moranote_selection_bound = true;

  var HL_NAME = 'moranote-sel';
  var supportsHighlight = (typeof Highlight !== 'undefined') &&
    window.CSS && CSS.highlights && (typeof CSS.highlights.set === 'function');

  function injectSelectionStyle() {
    if (document.getElementById('__moranote_selection_style')) return;
    var style = document.createElement('style');
    style.id = '__moranote_selection_style';
    var rules = [
      'html, body, .markdown-body, .markdown-body * {',
      '  -webkit-user-select: text !important;',
      '  user-select: text !important;',
      '  -webkit-touch-callout: default !important;',
      '}',
      'img, .markdown-body img { -webkit-user-drag: none !important; }',
      '.markdown-body { cursor: text !important; }',
      '.markdown-body a, .markdown-body button, .markdown-body input, .markdown-body summary, .markdown-body label { cursor: pointer !important; }'
    ];
    if (supportsHighlight) {
      // 自绘高亮，原生选区高亮置透明（绕开会失步的原生 overlay）
      rules.push('.markdown-body ::selection { background: transparent !important; }');
      rules.push('::highlight(' + HL_NAME + ') { background-color: rgba(126,163,136,0.40); color: inherit; }');
    } else {
      rules.push('.markdown-body ::selection { background: rgba(126,163,136,0.40); }');
    }
    style.textContent = rules.join('\n');
    (document.head || document.documentElement).appendChild(style);
  }

  var root = null;
  function contentRoot() {
    if (root && document.contains(root)) return root;
    root = document.querySelector('.markdown-body') || document.body;
    return root;
  }

  // 把点 (x,y) 解析成一个文本 caret 位置（{node, offset}）。
  // 直接命中文本时用 caretRangeFromPoint；落在空白/行间时，先把 x 钳制进内容盒，
  // 再沿 y 微调，尽力找到同一视觉行里最近的文本位置，避免跨行拖动时丢点。
  function caretFromPoint(x, y) {
    var r = caretRange(x, y);
    if (r) return r;
    var box = contentRoot().getBoundingClientRect();
    var cx = Math.min(Math.max(x, box.left + 1), box.right - 1);
    r = caretRange(cx, y);
    if (r) return r;
    // 沿 y 方向上下各探一点，命中相邻行
    for (var dy = 2; dy <= 28; dy += 2) {
      r = caretRange(cx, y - dy);
      if (r) return r;
      r = caretRange(cx, y + dy);
      if (r) return r;
    }
    return null;
  }

  function caretRange(x, y) {
    var range = null;
    if (document.caretRangeFromPoint) {
      range = document.caretRangeFromPoint(x, y);
    } else if (document.caretPositionFromPoint) {
      var pos = document.caretPositionFromPoint(x, y);
      if (pos) {
        range = document.createRange();
        range.setStart(pos.offsetNode, pos.offset);
        range.collapse(true);
      }
    }
    if (!range) return null;
    // 只接受落在内容区里的位置
    if (!contentRoot().contains(range.startContainer)) return null;
    return { node: range.startContainer, offset: range.startOffset };
  }

  var anchor = null;        // 选区锚点 {node, offset}
  var dragging = false;
  var moved = false;
  var pointerId = null;

  function clearHighlight() {
    if (supportsHighlight) CSS.highlights.delete(HL_NAME);
    var sel = window.getSelection();
    if (sel) sel.removeAllRanges();
  }

  function paint(focus) {
    if (!anchor || !focus) return;
    var range = document.createRange();
    // 按文档顺序摆正 start/end，支持向上、向左反向拖选
    var cmp = comparePoints(anchor, focus);
    var a = cmp <= 0 ? anchor : focus;
    var b = cmp <= 0 ? focus : anchor;
    try {
      range.setStart(a.node, a.offset);
      range.setEnd(b.node, b.offset);
    } catch (e) { return; }

    if (supportsHighlight) {
      CSS.highlights.set(HL_NAME, new Highlight(range));
    }
    // 同步真实 DOM 选区，保证复制内容正确
    var sel = window.getSelection();
    if (sel) {
      try { sel.setBaseAndExtent(a.node, a.offset, b.node, b.offset); }
      catch (e) { sel.removeAllRanges(); sel.addRange(range.cloneRange()); }
    }
  }

  function comparePoints(p, q) {
    if (p.node === q.node) return p.offset - q.offset;
    var pos = p.node.compareDocumentPosition(q.node);
    if (pos & Node.DOCUMENT_POSITION_FOLLOWING) return -1;
    if (pos & Node.DOCUMENT_POSITION_PRECEDING) return 1;
    return 0;
  }

  function isInteractive(target) {
    return !!(target && target.closest &&
      target.closest('a, button, input, textarea, select, summary, label, .copy-code-button'));
  }

  function onPointerDown(e) {
    if (e.button !== 0) return;
    if (isInteractive(e.target)) return;        // 链接/按钮交给原生
    var c = caretFromPoint(e.clientX, e.clientY);
    if (!c) return;
    anchor = c;
    dragging = true;
    moved = false;
    pointerId = e.pointerId;
    clearHighlight();
    e.preventDefault();                         // 抢占，阻止原生拖拽消歧 + overlay
  }

  function onPointerMove(e) {
    if (!dragging) return;
    var c = caretFromPoint(e.clientX, e.clientY);
    if (!c) return;
    moved = true;
    paint(c);
    e.preventDefault();
  }

  function onPointerUp(e) {
    if (!dragging) return;
    dragging = false;
    pointerId = null;
    if (!moved) clearHighlight();               // 纯点击：清掉，不留高亮
  }

  function bindEvents() {
    var rootEl = contentRoot();
    // 绑在内容根上，动态替换内容（__setRendered）后仍生效，因为根节点不变
    rootEl.addEventListener('pointerdown', onPointerDown, true);
    document.addEventListener('pointermove', onPointerMove, true);
    document.addEventListener('pointerup', onPointerUp, true);
    document.addEventListener('pointercancel', onPointerUp, true);
    // 双击/三击交给原生选词选段，但同样自绘高亮
    document.addEventListener('selectionchange', function () {
      if (dragging) return;                     // 拖动期间由我们接管，忽略
      if (!supportsHighlight) return;
      var sel = window.getSelection();
      if (!sel || sel.isCollapsed || sel.rangeCount === 0) {
        CSS.highlights.delete(HL_NAME);
        return;
      }
      var r = sel.getRangeAt(0);
      if (!contentRoot().contains(r.commonAncestorContainer)) return;
      CSS.highlights.set(HL_NAME, new Highlight(r.cloneRange()));
    });
  }

  function init() {
    injectSelectionStyle();
    bindEvents();
  }

  if (document.readyState === 'loading') {
    document.addEventListener('DOMContentLoaded', init);
  } else {
    init();
  }
})();
"#;

/// The preview runtime: copy buttons on code blocks, content updates and
/// scrolling to anchors.
pub const PREVIEW_RUNTIME_SCRIPT_BODY: &'static str = r#"
function fallbackCopyText(text) {
  const area = document.createElement('textarea');
  area.value = text;
  area.setAttribute('readonly', '');
  area.style.position = 'fixed';
  area.style.left = '-9999px';
  document.body.appendChild(area);
  area.select();
  let ok = false;
  try { ok = document.execCommand('copy'); } catch (_) { ok = false; }
  area.remove();
  if (!ok) throw new Error('copy failed');
}

async function writeClipboardText(text) {
  if (navigator.clipboard && navigator.clipboard.writeText) {
    try {
      await navigator.clipboard.writeText(text);
      return;
    } catch (_) {}
  }
  fallbackCopyText(text);
}

function showCopyFeedback(button, ok) {
  const label = button.querySelector('.copy-label');
  button.classList.toggle('copied', ok);
  if (label) label.textContent = ok ? '已复制' : '复制失败';
  window.setTimeout(() => {
    button.classList.remove('copied');
    if (label) label.textContent = '复制';
  }, 1400);
}

function decorateCodeBlocks() {
  document.querySelectorAll('.markdown-body pre').forEach((pre) => {
    if (pre.dataset.copyReady === 'true') return;
    const code = pre.querySelector('code');
    if (!code) return;
    pre.dataset.copyReady = 'true';

    const button = document.createElement('button');
    button.type = 'button';
    button.className = 'copy-code-button';
    button.title = '复制代码';
    button.setAttribute('aria-label', '复制代码');
    button.innerHTML = '<span class="copy-icon" aria-hidden="true"></span><span class="copy-label">复制</span>';
    button.addEventListener('click', async (event) => {
      event.preventDefault();
      event.stopPropagation();
      try {
        await writeClipboardText(code.textContent || '');
        showCopyFeedback(button, true);
      } catch (_) {
        showCopyFeedback(button, false);
      }
    });
    pre.appendChild(button);
  });
}

window.__setRendered = function(payload) {
  const target = document.getElementById('content');
  target.innerHTML = payload.html || '';
  document.documentElement.dataset.words = String(payload.stats?.words || 0);
  decorateCodeBlocks();
};

window.__scrollToAnchor = function(anchor) {
  const target = document.getElementById(anchor);
  if (target) target.scrollIntoView({ block: 'start', behavior: 'smooth' });
};

window.addEventListener('DOMContentLoaded', decorateCodeBlocks);
"#;

/// Rules shared by every export profile.
pub const TYPORA_BASE_EXPORT_CSS: &'static str = r#"
/* Typora-like export profile */
:root {
  --typora-export-width: 860px;
}

[data-export^="typora-"] body {
  text-rendering: optimizeLegibility;
  -webkit-font-smoothing: antialiased;
}

[data-export^="typora-"] .markdown-body {
  line-height: 1.82;
  overflow-wrap: anywhere;
}

[data-export^="typora-"] .markdown-body h1,
[data-export^="typora-"] .markdown-body h2,
[data-export^="typora-"] .markdown-body h3,
[data-export^="typora-"] .markdown-body h4,
[data-export^="typora-"] .markdown-body h5,
[data-export^="typora-"] .markdown-body h6 {
  break-after: avoid;
  page-break-after: avoid;
}

[data-export^="typora-"] .markdown-body pre,
[data-export^="typora-"] .markdown-body blockquote,
[data-export^="typora-"] .markdown-body table,
[data-export^="typora-"] .markdown-body img {
  break-inside: avoid;
  page-break-inside: avoid;
}

[data-export^="typora-"] .markdown-body table {
  display: table;
}
"#;

/// Rules of the HTML export profile.
pub const TYPORA_HTML_EXPORT_CSS: &'static str = r#"
[data-export="typora-html"] body {
  background: var(--bg-color);
}

[data-export="typora-html"] .markdown-body {
  min-height: auto;
  margin: 48px auto;
  padding: 52px 68px 72px;
  border: 1px solid var(--soft-border-color);
  border-radius: 8px;
}
"#;

/// Rules of the print (PDF) export profile.
pub const TYPORA_PRINT_EXPORT_CSS: &'static str = r#"
@page {
  size: A4;
  margin: 18mm 20mm 20mm;
}

[data-export="typora-print"] body {
  background: #fff !important;
}

[data-export="typora-print"] .markdown-body {
  width: auto;
  min-height: auto;
  margin: 0;
  padding: 0;
  background: #fff;
  box-shadow: none;
}

[data-export="typora-print"] .markdown-body a {
  color: inherit;
  border-bottom-color: transparent;
}

[data-export="typora-print"] .copy-code-button {
  display: none !important;
}

@media print {
  body {
    background: #fff !important;
  }

  .markdown-body {
    width: auto !important;
    min-height: auto !important;
    margin: 0 !important;
    padding: 0 !important;
    background: #fff !important;
    box-shadow: none !important;
  }

  .copy-code-button {
    display: none !important;
  }
}
"#;

/// Rules of the image export profile.
pub const TYPORA_IMAGE_EXPORT_CSS: &'static str = r#"
[data-export="typora-image"] body {
  background: var(--bg-color);
}

[data-export="typora-image"] .markdown-body {
  width: min(var(--typora-export-width), calc(100vw - 96px));
  min-height: auto;
  margin: 36px auto;
  padding: 48px 64px 64px;
}

[data-export="typora-image"] .copy-code-button {
  display: none !important;
}
"#;

/// Rules of the profile for documents handed to Pandoc.
pub const TYPORA_PANDOC_EXPORT_CSS: &'static str = r#"
[data-export="typora-pandoc"] .copy-code-button {
  display: none !important;
}
"#;

/// `[Content_Types].xml` of the Word package.
pub const CONTENT_TYPES_XML: &'static str = r#"<?xml version="1.0" encoding="UTF-8" standalone="yes"?>
<Types xmlns="http://schemas.openxmlformats.org/package/2006/content-types">
  <Default Extension="rels" ContentType="application/vnd.openxmlformats-package.relationships+xml"/>
  <Default Extension="xml" ContentType="application/xml"/>
  <Override PartName="/word/document.xml" ContentType="application/vnd.openxmlformats-officedocument.wordprocessingml.document.main+xml"/>
  <Override PartName="/word/styles.xml" ContentType="application/vnd.openxmlformats-officedocument.wordprocessingml.styles+xml"/>
  <Override PartName="/word/settings.xml" ContentType="application/vnd.openxmlformats-officedocument.wordprocessingml.settings+xml"/>
  <Override PartName="/docProps/core.xml" ContentType="application/vnd.openxmlformats-package.core-properties+xml"/>
  <Override PartName="/docProps/app.xml" ContentType="application/vnd.openxmlformats-officedocument.extended-properties+xml"/>
</Types>"#;

/// `_rels/.rels` of the Word package.
pub const PACKAGE_RELS_XML: &'static str = r#"<?xml version="1.0" encoding="UTF-8" standalone="yes"?>
<Relationships xmlns="http://schemas.openxmlformats.org/package/2006/relationships">
  <Relationship Id="rId1" Type="http://schemas.openxmlformats.org/officeDocument/2006/relationships/officeDocument" Target="word/document.xml"/>
  <Relationship Id="rId2" Type="http://schemas.openxmlformats.org/package/2006/relationships/metadata/core-properties" Target="docProps/core.xml"/>
  <Relationship Id="rId3" Type="http://schemas.openxmlformats.org/officeDocument/2006/relationships/extended-properties" Target="docProps/app.xml"/>
</Relationships>"#;

/// `word/settings.xml` of the Word package.
pub const DOCX_SETTINGS_XML: &'static str = r#"<?xml version="1.0" encoding="UTF-8" standalone="yes"?>
<w:settings xmlns:w="http://schemas.openxmlformats.org/wordprocessingml/2006/main">
  <w:zoom w:percent="100"/>
  <w:defaultTabStop w:val="720"/>
</w:settings>"#;

/// `docProps/app.xml` of the Word package.
pub const DOCX_APP_XML: &'static str = r#"<?xml version="1.0" encoding="UTF-8" standalone="yes"?>
<Properties xmlns="http://schemas.openxmlformats.org/officeDocument/2006/extended-properties" xmlns:vt="http://schemas.openxmlformats.org/officeDocument/2006/docPropsVTypes">
  <Application>MoraNote</Application>
</Properties>"#;

/// `word/styles.xml` of the Word package.
pub const DOCX_STYLES_XML: &'static str = r#"<?xml version="1.0" encoding="UTF-8" standalone="yes"?>
<w:styles xmlns:w="http://schemas.openxmlformats.org/wordprocessingml/2006/main">
  <w:style w:type="paragraph" w:default="1" w:styleId="Normal">
    <w:name w:val="Normal"/>
    <w:qFormat/>
    <w:pPr><w:spacing w:after="160" w:line="360" w:lineRule="auto"/></w:pPr>
    <w:rPr><w:rFonts w:ascii="Alibaba PuHuiTi 3.0" w:hAnsi="Alibaba PuHuiTi 3.0" w:eastAsia="Alibaba PuHuiTi 3.0"/><w:sz w:val="24"/></w:rPr>
  </w:style>
  <w:style w:type="paragraph" w:styleId="Heading1"><w:name w:val="heading 1"/><w:basedOn w:val="Normal"/><w:next w:val="Normal"/><w:qFormat/><w:pPr><w:spacing w:before="360" w:after="220"/><w:outlineLvl w:val="0"/></w:pPr><w:rPr><w:b/><w:color w:val="7A5F52"/><w:sz w:val="40"/></w:rPr></w:style>
  <w:style w:type="paragraph" w:styleId="Heading2"><w:name w:val="heading 2"/><w:basedOn w:val="Normal"/><w:next w:val="Normal"/><w:qFormat/><w:pPr><w:spacing w:before="300" w:after="180"/><w:outlineLvl w:val="1"/></w:pPr><w:rPr><w:b/><w:color w:val="506956"/><w:sz w:val="32"/></w:rPr></w:style>
  <w:style w:type="paragraph" w:styleId="Heading3"><w:name w:val="heading 3"/><w:basedOn w:val="Normal"/><w:next w:val="Normal"/><w:qFormat/><w:pPr><w:spacing w:before="260" w:after="160"/><w:outlineLvl w:val="2"/></w:pPr><w:rPr><w:b/><w:color w:val="7A6F89"/><w:sz w:val="28"/></w:rPr></w:style>
  <w:style w:type="paragraph" w:styleId="Heading4"><w:name w:val="heading 4"/><w:basedOn w:val="Normal"/><w:next w:val="Normal"/><w:qFormat/><w:pPr><w:spacing w:before="220" w:after="140"/><w:outlineLvl w:val="3"/></w:pPr><w:rPr><w:b/><w:color w:val="6F7F88"/><w:sz w:val="25"/></w:rPr></w:style>
  <w:style w:type="paragraph" w:styleId="Heading5"><w:name w:val="heading 5"/><w:basedOn w:val="Normal"/><w:next w:val="Normal"/><w:qFormat/><w:pPr><w:spacing w:before="200" w:after="120"/><w:outlineLvl w:val="4"/></w:pPr><w:rPr><w:b/><w:color w:val="8A7A6F"/><w:sz w:val="23"/></w:rPr></w:style>
  <w:style w:type="paragraph" w:styleId="Heading6"><w:name w:val="heading 6"/><w:basedOn w:val="Normal"/><w:next w:val="Normal"/><w:qFormat/><w:pPr><w:spacing w:before="180" w:after="100"/><w:outlineLvl w:val="5"/></w:pPr><w:rPr><w:b/><w:color w:val="7D7A71"/><w:sz w:val="22"/></w:rPr></w:style>
  <w:style w:type="paragraph" w:styleId="Quote"><w:name w:val="Quote"/><w:basedOn w:val="Normal"/><w:qFormat/><w:pPr><w:ind w:left="360"/><w:spacing w:before="120" w:after="160"/><w:shd w:fill="EEF4EF"/></w:pPr><w:rPr><w:i/><w:color w:val="7A5F52"/></w:rPr></w:style>
  <w:style w:type="paragraph" w:styleId="ListParagraph"><w:name w:val="List Paragraph"/><w:basedOn w:val="Normal"/><w:qFormat/><w:pPr><w:ind w:left="420"/></w:pPr></w:style>
  <w:style w:type="paragraph" w:styleId="CodeBlock"><w:name w:val="Code Block"/><w:basedOn w:val="Normal"/><w:qFormat/><w:pPr><w:spacing w:before="120" w:after="120"/><w:shd w:fill="F0F5F3"/></w:pPr><w:rPr><w:rFonts w:ascii="JetBrains Mono NL" w:hAnsi="JetBrains Mono NL"/><w:sz w:val="20"/></w:rPr></w:style>
</w:styles>"#;

} // verus!
