//! Turning the rendered HTML into the paragraphs of a Word document.
use vstd::prelude::*;
use crate::html::{
    decode_entities, decode_entities_chars, eq_lit, main_body, main_body_chars, tag_attr,
    tag_attr_chars, tag_name, tag_name_chars,
};
use crate::text::{
    blank, chars_of, ends_with, extend, extend_range, find_char_from, find_from, is_blank, lead_ws, lemma_find_from, lemma_lead_ws, lemma_word_end, matches_at, skip_word, skip_ws,
    starts_with, string_from, trim, trim_char, trim_char_exec, trim_start, trim_str, word_end,
    is_ws,
};

verus! {

/// The paragraph style of a block.
#[derive(Debug, Clone, Copy, PartialEq, Eq, Structural)]
pub enum DocxStyle {
    Normal,
    Heading(u8),
    Quote,
    List,
    Code,
}

/// One paragraph of the Word document.
#[derive(Debug)]
pub enum DocxBlock {
    Paragraph { style: DocxStyle, text: String },
}

impl DocxBlock {
    pub open spec fn style(self) -> DocxStyle {
        match self {
            DocxBlock::Paragraph { style, .. } => style,
        }
    }

    pub open spec fn text(self) -> Seq<char> {
        match self {
            DocxBlock::Paragraph { text, .. } => text@,
        }
    }
}

/// The blocks as (style, text) pairs.
pub open spec fn blocks_view(v: Seq<DocxBlock>) -> Seq<(DocxStyle, Seq<char>)> {
    v.map_values(|b: DocxBlock| (b.style(), b.text()))
}

/// Whether a word appended after `t` is preceded by a space: when `t` is not
/// empty and does not already end in a space, newline, tab or bullet.
pub open spec fn needs_space(t: Seq<char>) -> bool {
    t.len() > 0 && !(t.last() == ' ' || t.last() == '\n' || t.last() == '\t' || t.last() == '•')
}

/// Appends the words of `s` from position `i` on to `t`, each separated from
/// what precedes it as `needs_space` says.
pub open spec fn append_words_from(t: Seq<char>, s: Seq<char>, i: int) -> Seq<char>
    decreases s.len() - i,
{
    let a = lead_ws(s, i);
    if i < 0 || a < i || a >= s.len() {
        t
    } else {
        let b = word_end(s, a);
        if b <= a || b > s.len() {
            t
        } else {
            let t2 = (if needs_space(t) {
                t.push(' ')
            } else {
                t
            }) + s.subrange(a, b);
            append_words_from(t2, s, b)
        }
    }
}

/// What `append_docx_text` leaves in the buffer: the entity-decoded text,
/// verbatim inside preformatted text, else as words joined by single spaces.
pub open spec fn append_text(t: Seq<char>, text: Seq<char>, preserve: bool) -> Seq<char> {
    let d = decode_entities(text);
    if preserve {
        t + d
    } else {
        append_words_from(t, d, 0)
    }
}

/// `append_docx_text` on a character buffer.
pub fn append_docx_text(target: &mut Vec<char>, text: &[char], preserve: bool)
    ensures
        final(target)@ == append_text(old(target)@, text@, preserve),
{
    let d = decode_entities_chars(text);
    if preserve {
        extend(target, &d);
        return;
    }
    let mut i: usize = 0;
    while i < d.len()
        invariant
            i <= d@.len(),
            append_words_from(target@, d@, i as int) == append_text(
                old(target)@,
                text@,
                false,
            ),
        decreases d@.len() - i,
    {
        let a = skip_ws(&d, i);
        proof {
            lemma_lead_ws(d@, i as int);
        }
        if a >= d.len() {
            i = a;
        } else {
            let b = skip_word(&d, a);
            proof {
                lemma_word_end(d@, a as int);
            }
            let n = target.len();
            if n > 0 {
                let last = target[n - 1];
                if !(last == ' ' || last == '\n' || last == '\t' || last == '•') {
                    target.push(' ');
                }
            }
            extend_range(target, &d, a, b);
            i = b;
        }
    }
}

/// The text a block keeps: code keeps its inner whitespace and loses only
/// surrounding newlines; other styles are trimmed.
pub open spec fn normalized_text(text: Seq<char>, style: DocxStyle) -> Seq<char> {
    if style is Code {
        trim_char(text, '\n')
    } else {
        trim(text)
    }
}

/// The blocks after flushing the buffer `text` in `style`.
pub open spec fn push_block(
    blocks: Seq<(DocxStyle, Seq<char>)>,
    text: Seq<char>,
    style: DocxStyle,
) -> Seq<(DocxStyle, Seq<char>)> {
    let n = normalized_text(text, style);
    if n.len() == 0 {
        blocks
    } else {
        blocks.push((style, n))
    }
}

/// Flushes the buffer into a new block unless it is
/// empty after normalization, and clears it.
pub fn push_docx_block(blocks: &mut Vec<DocxBlock>, text: &mut Vec<char>, style: DocxStyle)
    ensures
        blocks_view(final(blocks)@) == push_block(blocks_view(old(blocks)@), old(text)@, style),
        final(text)@.len() == 0,
{
    let normalized = match style {
        DocxStyle::Code => trim_char_exec(text, '\n'),
        _ => trim_str(text),
    };
    *text = Vec::new();
    if normalized.len() == 0 {
        return;
    }
    let ghost before = blocks@;
    blocks.push(DocxBlock::Paragraph { style, text: string_from(&normalized) });
    assert(blocks_view(blocks@) =~= blocks_view(before).push((style, normalized@)));
}

/// The state of the block scanner.
pub struct DocxScan {
    pub blocks: Seq<(DocxStyle, Seq<char>)>,
    pub text: Seq<char>,
    pub style: DocxStyle,
    pub in_pre: bool,
}

/// The state after flushing the buffer and switching to `style`.
pub open spec fn flush(st: DocxScan, style: DocxStyle) -> DocxScan {
    DocxScan {
        blocks: push_block(st.blocks, st.text, st.style),
        text: Seq::empty(),
        style,
        in_pre: st.in_pre,
    }
}

pub open spec fn is_heading_name(n: Seq<char>) -> bool {
    n.len() == 2 && n[0] == 'h' && '1' <= n[1] <= '6'
}

/// The label of an image: its non-blank `alt`, else its `src`, else a
/// generic word.
pub open spec fn image_label(tag: Seq<char>) -> Seq<char> {
    match tag_attr(tag, "alt"@) {
        Some(a) if !is_blank(a) => a,
        _ => match tag_attr(tag, "src"@) {
            Some(s) => s,
            None => "图片"@,
        },
    }
}

/// The effect of one tag on the scanner.
pub open spec fn tag_step(st: DocxScan, tag: Seq<char>) -> DocxScan {
    let closing = starts_with(trim_start(tag), seq!['/']);
    match tag_name(tag) {
        None => st,
        Some(n) => if is_heading_name(n) {
            if closing {
                flush(st, DocxStyle::Normal)
            } else {
                flush(st, DocxStyle::Heading(((n[1] as int) - 0x30) as u8))
            }
        } else if n == "p"@ || n == "tr"@ {
            flush(st, DocxStyle::Normal)
        } else if n == "blockquote"@ {
            flush(st, if closing { DocxStyle::Normal } else { DocxStyle::Quote })
        } else if n == "li"@ {
            if closing {
                flush(st, DocxStyle::Normal)
            } else {
                DocxScan { text: "• "@, ..flush(st, DocxStyle::List) }
            }
        } else if n == "pre"@ {
            if closing {
                DocxScan { in_pre: false, ..flush(st, DocxStyle::Normal) }
            } else {
                DocxScan { in_pre: true, ..flush(st, DocxStyle::Code) }
            }
        } else if n == "br"@ {
            DocxScan { text: st.text.push('\n'), ..st }
        } else if (n == "td"@ || n == "th"@) && !closing {
            if !is_blank(st.text) && !ends_with(st.text, seq!['\t']) {
                DocxScan { text: st.text.push('\t'), ..st }
            } else {
                st
            }
        } else if n == "img"@ && !closing {
            DocxScan {
                text: append_text(st.text, "[图片: "@ + image_label(tag) + "]"@, false),
                ..st
            }
        } else {
            st
        },
    }
}

/// The scanner over `body` from position `i` on: text between tags goes to
/// the buffer, tags act as `tag_step` says; an unclosed `<` starts text.
pub open spec fn scan(body: Seq<char>, i: int, st: DocxScan) -> DocxScan
    decreases body.len() - i,
    when 0 <= i
{
    if i >= body.len() {
        st
    } else {
        match find_from(body, seq!['<'], i) {
            None => DocxScan {
                text: append_text(st.text, body.subrange(i, body.len() as int), st.in_pre),
                ..st
            },
            Some(ts) => if i <= ts < body.len() {
                let st1 = DocxScan {
                    text: append_text(st.text, body.subrange(i, ts), st.in_pre),
                    ..st
                };
                match find_from(body, seq!['>'], ts) {
                    None => DocxScan {
                        text: append_text(st1.text, body.subrange(ts, body.len() as int), st1.in_pre),
                        ..st1
                    },
                    Some(te) => if ts < te < body.len() {
                        scan(body, te + 1, tag_step(st1, body.subrange(ts + 1, te)))
                    } else {
                        st1
                    },
                }
            } else {
                st
            },
        }
    }
}

pub open spec fn initial_scan() -> DocxScan {
    DocxScan { blocks: Seq::empty(), text: Seq::empty(), style: DocxStyle::Normal, in_pre: false }
}

/// The paragraphs of the Word document for `html`: the scan of its main
/// body, with the last buffer flushed, or one placeholder paragraph when
/// nothing is left.
pub open spec fn docx_blocks(html: Seq<char>) -> Seq<(DocxStyle, Seq<char>)> {
    let st = scan(main_body(html), 0, initial_scan());
    let blocks = push_block(st.blocks, st.text, st.style);
    if blocks.len() == 0 {
        seq![(DocxStyle::Normal, "Empty document"@)]
    } else {
        blocks
    }
}

/// Every paragraph has some text.
pub open spec fn texts_nonempty(bs: Seq<(DocxStyle, Seq<char>)>) -> bool {
    forall|i: int| 0 <= i < bs.len() ==> (#[trigger] bs[i]).1.len() > 0
}

/// A style a block may carry: headings are of level 1 to 6.
pub open spec fn style_ok(style: DocxStyle) -> bool {
    style matches DocxStyle::Heading(l) ==> 1 <= l <= 6
}

/// A well-formed paragraph: its text is not empty and is normalized for
/// its style (code trimmed of newlines only, others trimmed), and its style
/// is a valid one.
pub open spec fn block_ok(b: (DocxStyle, Seq<char>)) -> bool {
    &&& b.1.len() > 0
    &&& b.1 == normalized_text(b.1, b.0)
    &&& style_ok(b.0)
}

/// Every paragraph is well formed.
pub open spec fn blocks_ok(bs: Seq<(DocxStyle, Seq<char>)>) -> bool {
    forall|i: int| 0 <= i < bs.len() ==> block_ok(#[trigger] bs[i])
}

proof fn lemma_push_block_ok(bs: Seq<(DocxStyle, Seq<char>)>, text: Seq<char>, style: DocxStyle)
    requires
        blocks_ok(bs),
        style_ok(style),
    ensures
        blocks_ok(push_block(bs, text, style)),
{
    let r = push_block(bs, text, style);
    if style is Code {
        crate::text::lemma_trim_char_idempotent(text, '\n');
    } else {
        crate::text::lemma_trim_idempotent(text);
    }
    assert forall|i: int| 0 <= i < r.len() implies block_ok(#[trigger] r[i]) by {
        if i < bs.len() {
            assert(r[i] == bs[i]);
        }
    }
}

proof fn lemma_tag_step_ok(st: DocxScan, tag: Seq<char>)
    requires
        blocks_ok(st.blocks),
        style_ok(st.style),
    ensures
        blocks_ok(tag_step(st, tag).blocks),
        style_ok(tag_step(st, tag).style),
{
    lemma_push_block_ok(st.blocks, st.text, st.style);
    match tag_name(tag) {
        None => {},
        Some(n) => {
            if is_heading_name(n) {
                let d = (n[1] as int) - 0x30;
                assert(1 <= d <= 6);
                assert(((d as u8) as int) == d);
            }
        },
    }
}

proof fn lemma_scan_ok(body: Seq<char>, i: int, st: DocxScan)
    requires
        0 <= i,
        blocks_ok(st.blocks),
        style_ok(st.style),
    ensures
        blocks_ok(scan(body, i, st).blocks),
        style_ok(scan(body, i, st).style),
    decreases body.len() - i,
{
    if i < body.len() {
        match find_from(body, seq!['<'], i) {
            None => {},
            Some(ts) => if i <= ts < body.len() {
                let st1 = DocxScan {
                    text: append_text(st.text, body.subrange(i, ts), st.in_pre),
                    ..st
                };
                match find_from(body, seq!['>'], ts) {
                    None => {},
                    Some(te) => if ts < te < body.len() {
                        let tag = body.subrange(ts + 1, te);
                        lemma_tag_step_ok(st1, tag);
                        lemma_scan_ok(body, te + 1, tag_step(st1, tag));
                    },
                }
            },
        }
    }
}

/// Law: every paragraph of the Word document made of any page is well
/// formed: its text is not empty, code is trimmed of surrounding newlines
/// and any other text of surrounding whitespace, and headings are of level
/// 1 to 6.
pub proof fn lemma_docx_blocks_well_formed(html: Seq<char>)
    ensures
        blocks_ok(docx_blocks(html)),
{
    let st = scan(main_body(html), 0, initial_scan());
    lemma_scan_ok(main_body(html), 0, initial_scan());
    lemma_push_block_ok(st.blocks, st.text, st.style);
    reveal_strlit("Empty document");
    let e = "Empty document"@;
    assert(e[0] == 'E');
    assert(e.last() == 't');
    assert(trim_start(e) == e);
    assert(crate::text::trim_end(e) == e);
    let fallback = seq![(DocxStyle::Normal, e)];
    assert(block_ok(fallback[0]));
}

/// A paragraph text that begins with a bullet: the bullet alone, or the
/// bullet and a space before the item's text.
pub open spec fn bulleted(t: Seq<char>) -> bool {
    t == seq!['•'] || (t.len() >= 2 && t[0] == '•' && t[1] == ' ')
}

/// Every list paragraph begins with a bullet.
pub open spec fn list_bulleted(bs: Seq<(DocxStyle, Seq<char>)>) -> bool {
    forall|i: int| 0 <= i < bs.len() ==> ((#[trigger] bs[i]).0 is List ==> bulleted(bs[i].1))
}

/// The buffer of a list item begins with the bullet and a space.
pub open spec fn scan_bulleted(st: DocxScan) -> bool {
    st.style is List ==> st.text.len() >= 2 && st.text[0] == '•' && st.text[1] == ' '
}

proof fn lemma_append_words_prefix(t: Seq<char>, s: Seq<char>, i: int)
    ensures
        append_words_from(t, s, i).len() >= t.len(),
        append_words_from(t, s, i).take(t.len() as int) == t,
    decreases s.len() - i,
{
    let a = lead_ws(s, i);
    if i < 0 || a < i || a >= s.len() {
        assert(t.take(t.len() as int) =~= t);
    } else {
        let b = word_end(s, a);
        if b <= a || b > s.len() {
            assert(t.take(t.len() as int) =~= t);
        } else {
            let t2 = (if needs_space(t) {
                t.push(' ')
            } else {
                t
            }) + s.subrange(a, b);
            lemma_append_words_prefix(t2, s, b);
            let r = append_words_from(t2, s, b);
            assert(t2.take(t.len() as int) =~= t);
            assert(r.take(t.len() as int) =~= r.take(t2.len() as int).take(t.len() as int));
        }
    }
}

proof fn lemma_append_text_prefix(t: Seq<char>, text: Seq<char>, preserve: bool)
    ensures
        append_text(t, text, preserve).len() >= t.len(),
        append_text(t, text, preserve).take(t.len() as int) == t,
{
    if preserve {
        assert((t + decode_entities(text)).take(t.len() as int) =~= t);
    } else {
        lemma_append_words_prefix(t, decode_entities(text), 0);
    }
}

proof fn lemma_push_block_bulleted(bs: Seq<(DocxStyle, Seq<char>)>, text: Seq<char>, style: DocxStyle)
    requires
        list_bulleted(bs),
        style is List ==> text.len() >= 2 && text[0] == '•' && text[1] == ' ',
    ensures
        list_bulleted(push_block(bs, text, style)),
{
    let r = push_block(bs, text, style);
    if style is List {
        assert(!is_ws('•'));
        crate::text::lemma_trim_keeps_head(text);
        let n = trim(text);
        assert(n[0] == text.take(n.len() as int)[0]);
        assert(n[0] == text[0]);
        if n.len() >= 2 {
            assert(n[1] == text.take(n.len() as int)[1]);
            assert(n[1] == text[1]);
        } else {
            assert(n =~= seq!['•']);
        }
        assert(bulleted(n));
    }
    assert forall|i: int| 0 <= i < r.len() implies ((#[trigger] r[i]).0 is List ==> bulleted(r[i].1)) by {
        if i < bs.len() {
            assert(r[i] == bs[i]);
        }
    }
}

proof fn lemma_tag_step_bulleted(st: DocxScan, tag: Seq<char>)
    requires
        list_bulleted(st.blocks),
        scan_bulleted(st),
    ensures
        list_bulleted(tag_step(st, tag).blocks),
        scan_bulleted(tag_step(st, tag)),
{
    lemma_push_block_bulleted(st.blocks, st.text, st.style);
    reveal_strlit("• ");
    let closing = starts_with(trim_start(tag), seq!['/']);
    match tag_name(tag) {
        None => {},
        Some(n) => {
            if n == "br"@ && !is_heading_name(n) {
                if st.style is List {
                    assert(st.text.push('\n')[0] == st.text[0]);
                    assert(st.text.push('\n')[1] == st.text[1]);
                }
            }
            if st.style is List {
                let t2 = st.text.push('\t');
                assert(t2[0] == st.text[0] && t2[1] == st.text[1]);
                let t3 = append_text(st.text, "[图片: "@ + image_label(tag) + "]"@, false);
                lemma_append_text_prefix(st.text, "[图片: "@ + image_label(tag) + "]"@, false);
                assert(t3[0] == t3.take(st.text.len() as int)[0]);
                assert(t3[1] == t3.take(st.text.len() as int)[1]);
            }
        },
    }
}

proof fn lemma_scan_bulleted(body: Seq<char>, i: int, st: DocxScan)
    requires
        0 <= i,
        list_bulleted(st.blocks),
        scan_bulleted(st),
    ensures
        list_bulleted(scan(body, i, st).blocks),
        scan_bulleted(scan(body, i, st)),
    decreases body.len() - i,
{
    if i < body.len() {
        match find_from(body, seq!['<'], i) {
            None => {
                let t = append_text(st.text, body.subrange(i, body.len() as int), st.in_pre);
                lemma_append_text_prefix(st.text, body.subrange(i, body.len() as int), st.in_pre);
                if st.style is List {
                    assert(t[0] == t.take(st.text.len() as int)[0]);
                    assert(t[1] == t.take(st.text.len() as int)[1]);
                }
            },
            Some(ts) => if i <= ts < body.len() {
                let st1 = DocxScan {
                    text: append_text(st.text, body.subrange(i, ts), st.in_pre),
                    ..st
                };
                lemma_append_text_prefix(st.text, body.subrange(i, ts), st.in_pre);
                if st.style is List {
                    assert(st1.text[0] == st1.text.take(st.text.len() as int)[0]);
                    assert(st1.text[1] == st1.text.take(st.text.len() as int)[1]);
                }
                match find_from(body, seq!['>'], ts) {
                    None => {
                        let t = append_text(st1.text, body.subrange(ts, body.len() as int), st1.in_pre);
                        lemma_append_text_prefix(st1.text, body.subrange(ts, body.len() as int), st1.in_pre);
                        if st.style is List {
                            assert(t[0] == t.take(st1.text.len() as int)[0]);
                            assert(t[1] == t.take(st1.text.len() as int)[1]);
                        }
                    },
                    Some(te) => if ts < te < body.len() {
                        let tag = body.subrange(ts + 1, te);
                        lemma_tag_step_bulleted(st1, tag);
                        lemma_scan_bulleted(body, te + 1, tag_step(st1, tag));
                    },
                }
            },
        }
    }
}

/// Law: every list paragraph of the Word document made of any page begins
/// with a bullet: the bullet and a space before the item's text, or the
/// bullet alone for an empty item.
pub proof fn lemma_docx_list_bullets(html: Seq<char>)
    ensures
        list_bulleted(docx_blocks(html)),
{
    let st = scan(main_body(html), 0, initial_scan());
    lemma_scan_bulleted(main_body(html), 0, initial_scan());
    lemma_push_block_bulleted(st.blocks, st.text, st.style);
    let fallback = seq![(DocxStyle::Normal, "Empty document"@)];
    assert(list_bulleted(fallback));
}

/// Law: the Word document made of any page has at least one paragraph,
/// and no paragraph is empty.
pub proof fn lemma_docx_blocks_nonempty(html: Seq<char>)
    ensures
        docx_blocks(html).len() >= 1,
        texts_nonempty(docx_blocks(html)),
{
    lemma_docx_blocks_well_formed(html);
    let b = docx_blocks(html);
    assert forall|i: int| 0 <= i < b.len() implies (#[trigger] b[i]).1.len() > 0 by {
        assert(block_ok(b[i]));
    }
}

pub open spec fn scan_state(
    blocks: Seq<DocxBlock>,
    text: Seq<char>,
    style: DocxStyle,
    in_pre: bool,
) -> DocxScan {
    DocxScan { blocks: blocks_view(blocks), text, style, in_pre }
}


/// Whether the tag text, after leading whitespace, starts with `/`.
fn is_closing_tag(tag: &[char]) -> (r: bool)
    ensures
        r == starts_with(trim_start(tag@), seq!['/']),
{
    let a = skip_ws(tag, 0);
    proof {
        lemma_lead_ws(tag@, 0);
        crate::text::lemma_trim_start_skip(tag@, 0);
        assert(tag@.skip(0) =~= tag@);
    }
    let r = a < tag.len() && tag[a] == '/';
    proof {
        let t = tag@.skip(a as int);
        if r {
            assert(t.subrange(0, 1) =~= seq!['/']);
        } else if t.len() >= 1 {
            assert(t.subrange(0, 1)[0] == t[0]);
        }
    }
    r
}

/// The label of an image tag (exec).
fn image_label_chars(tag: &[char]) -> (r: Vec<char>)
    ensures
        r@ == image_label(tag@),
{
    let alt = chars_of("alt");
    let src = chars_of("src");
    match tag_attr_chars(tag, &alt) {
        Some(a) if !blank(&a) => a,
        _ => match tag_attr_chars(tag, &src) {
            Some(s) => s,
            None => chars_of("图片"),
        },
    }
}

/// One tag's effect on the scanner state (`tag_step`, exec).
pub fn docx_tag_step(
    blocks: &mut Vec<DocxBlock>,
    text: &mut Vec<char>,
    style: &mut DocxStyle,
    in_pre: &mut bool,
    tag: &[char],
)
    ensures
        scan_state(final(blocks)@, final(text)@, *final(style), *final(in_pre)) == tag_step(
            scan_state(old(blocks)@, old(text)@, *old(style), *old(in_pre)),
            tag@,
        ),
{
    let ghost st = scan_state(blocks@, text@, *style, *in_pre);
    let closing = is_closing_tag(tag);
    let name = match tag_name_chars(tag) {
        None => return,
        Some(n) => n,
    };
    if name.len() == 2 && name[0] == 'h' && '1' <= name[1] && name[1] <= '6' {
        push_docx_block(blocks, text, *style);
        if closing {
            *style = DocxStyle::Normal;
        } else {
            let level = ((name[1] as u32) - 0x30) as u8;
            *style = DocxStyle::Heading(level);
        }
        assert(text@ =~= Seq::<char>::empty());
    } else if eq_lit(&name, "p") || eq_lit(&name, "tr") {
        push_docx_block(blocks, text, *style);
        *style = DocxStyle::Normal;
        assert(text@ =~= Seq::<char>::empty());
    } else if eq_lit(&name, "blockquote") {
        push_docx_block(blocks, text, *style);
        *style = if closing {
            DocxStyle::Normal
        } else {
            DocxStyle::Quote
        };
        assert(text@ =~= Seq::<char>::empty());
    } else if eq_lit(&name, "li") {
        push_docx_block(blocks, text, *style);
        if closing {
            *style = DocxStyle::Normal;
            assert(text@ =~= Seq::<char>::empty());
        } else {
            *style = DocxStyle::List;
            let bullet = chars_of("• ");
            extend(text, &bullet);
            assert(text@ =~= "• "@);
        }
    } else if eq_lit(&name, "pre") {
        push_docx_block(blocks, text, *style);
        if closing {
            *style = DocxStyle::Normal;
            *in_pre = false;
        } else {
            *style = DocxStyle::Code;
            *in_pre = true;
        }
        assert(text@ =~= Seq::<char>::empty());
    } else if eq_lit(&name, "br") {
        text.push('\n');
    } else if (eq_lit(&name, "td") || eq_lit(&name, "th")) && !closing {
        let n = text.len();
        let ends_tab = n > 0 && text[n - 1] == '\t';
        proof {
            if n > 0 {
                if text@[n - 1] == '\t' {
                    assert(text@.subrange(n - 1, n as int) =~= seq!['\t']);
                } else {
                    assert(text@.subrange(n - 1, n as int)[0] == text@[n - 1]);
                }
            }
        }
        if !blank(text) && !ends_tab {
            text.push('\t');
        }
    } else if eq_lit(&name, "img") && !closing {
        let label = image_label_chars(tag);
        let mut piece = chars_of("[图片: ");
        extend(&mut piece, &label);
        let close = chars_of("]");
        extend(&mut piece, &close);
        append_docx_text(text, &piece, false);
    }
}

/// The paragraphs of the Word document.
pub fn docx_blocks_from_html(html: &str) -> (r: Vec<DocxBlock>)
    ensures
        blocks_view(r@) == docx_blocks(html@),
{
    let h = chars_of(html);
    let body = main_body_chars(&h);
    let mut blocks: Vec<DocxBlock> = Vec::new();
    let mut text: Vec<char> = Vec::new();
    let mut style = DocxStyle::Normal;
    let mut in_pre = false;
    let mut index: usize = 0;
    assert(blocks_view(blocks@) =~= Seq::<(DocxStyle, Seq<char>)>::empty());
    assert(scan_state(blocks@, text@, style, in_pre) == initial_scan());
    while index < body.len()
        invariant
            body@ == main_body(html@),
            index <= body@.len(),
            scan(body@, index as int, scan_state(blocks@, text@, style, in_pre)) == scan(
                body@,
                0,
                initial_scan(),
            ),
        ensures
            index >= body@.len(),
        decreases body@.len() - index,
    {
        proof {
            lemma_find_from(body@, seq!['<'], index as int);
        }
        let tag_start = match find_char_from(&body, '<', index) {
            None => {
                let rest = crate::text::slice_to_vec(&body, index, body.len());
                append_docx_text(&mut text, &rest, in_pre);
                index = body.len();
                break ;
            },
            Some(t) => t,
        };
        assert(matches_at(body@, tag_start as int, seq!['<']));
        let before = crate::text::slice_to_vec(&body, index, tag_start);
        append_docx_text(&mut text, &before, in_pre);
        proof {
            lemma_find_from(body@, seq!['>'], tag_start as int);
            assert(body@[tag_start as int] == '<') by {
                assert(body@.subrange(tag_start as int, tag_start + 1)[0] == body@[tag_start as int]);
            }
        }
        let tag_end = match find_char_from(&body, '>', tag_start) {
            None => {
                let rest = crate::text::slice_to_vec(&body, tag_start, body.len());
                append_docx_text(&mut text, &rest, in_pre);
                index = body.len();
                break ;
            },
            Some(t) => t,
        };
        assert(matches_at(body@, tag_end as int, seq!['>']));
        assert(tag_end != tag_start) by {
            assert(body@.subrange(tag_end as int, tag_end + 1)[0] == body@[tag_end as int]);
        }
        let tag = crate::text::slice_to_vec(&body, tag_start + 1, tag_end);
        docx_tag_step(&mut blocks, &mut text, &mut style, &mut in_pre, &tag);
        index = tag_end + 1;
    }
    let ghost st = scan(body@, 0, initial_scan());
    push_docx_block(&mut blocks, &mut text, style);
    if blocks.len() == 0 {
        let mut b: Vec<DocxBlock> = Vec::new();
        let placeholder = chars_of("Empty document");
        b.push(DocxBlock::Paragraph { style: DocxStyle::Normal, text: string_from(&placeholder) });
        assert(blocks_view(b@) =~= seq![(DocxStyle::Normal, "Empty document"@)]);
        return b;
    }
    blocks
}


/// The XML escape of one character.
pub open spec fn xml_escape_char(c: char) -> Seq<char> {
    if c == '&' {
        "&amp;"@
    } else if c == '<' {
        "&lt;"@
    } else if c == '>' {
        "&gt;"@
    } else if c == '"' {
        "&quot;"@
    } else if c == '\'' {
        "&apos;"@
    } else {
        seq![c]
    }
}

/// `&`, `<`, `>`, `"` and `'` become entities.
pub open spec fn xml_escaped(s: Seq<char>) -> Seq<char>
    decreases s.len(),
{
    if s.len() == 0 {
        Seq::empty()
    } else {
        xml_escaped(s.drop_last()) + xml_escape_char(s.last())
    }
}

/// Law: XML-escaped text holds no `<`, `>`, `"` or `'`.
pub proof fn lemma_xml_escaped_inert(s: Seq<char>)
    ensures
        forall|k: int|
            0 <= k < xml_escaped(s).len() ==> #[trigger] xml_escaped(s)[k] != '<' && xml_escaped(
                s,
            )[k] != '>' && xml_escaped(s)[k] != '"' && xml_escaped(s)[k] != '\'',
    decreases s.len(),
{
    if s.len() > 0 {
        lemma_xml_escaped_inert(s.drop_last());
        reveal_strlit("&amp;");
        reveal_strlit("&quot;");
        reveal_strlit("&lt;");
        reveal_strlit("&gt;");
        reveal_strlit("&apos;");
        let a = xml_escaped(s.drop_last());
        let e = xml_escape_char(s.last());
        assert forall|k: int| 0 <= k < (a + e).len() implies #[trigger] (a + e)[k] != '<' && (a
            + e)[k] != '>' && (a + e)[k] != '"' && (a + e)[k] != '\'' by {
            if k >= a.len() {
                assert((a + e)[k] == e[k - a.len()]);
            } else {
                assert((a + e)[k] == a[k]);
            }
        }
    }
}

/// Appends the XML escape of `s` to `out`.
pub fn push_xml_escaped(out: &mut Vec<char>, s: &[char])
    ensures
        final(out)@ == old(out)@ + xml_escaped(s@),
{
    let amp = chars_of("&amp;");
    let lt = chars_of("&lt;");
    let gt = chars_of("&gt;");
    let quot = chars_of("&quot;");
    let apos = chars_of("&apos;");
    let mut i: usize = 0;
    assert(s@.take(0) =~= Seq::<char>::empty());
    assert(old(out)@ + Seq::<char>::empty() =~= old(out)@);
    while i < s.len()
        invariant
            i <= s@.len(),
            amp@ == "&amp;"@,
            lt@ == "&lt;"@,
            gt@ == "&gt;"@,
            quot@ == "&quot;"@,
            apos@ == "&apos;"@,
            out@ == old(out)@ + xml_escaped(s@.take(i as int)),
        decreases s@.len() - i,
    {
        let c = s[i];
        let ghost before = out@;
        if c == '&' {
            extend(out, &amp);
        } else if c == '<' {
            extend(out, &lt);
        } else if c == '>' {
            extend(out, &gt);
        } else if c == '"' {
            extend(out, &quot);
        } else if c == '\'' {
            extend(out, &apos);
        } else {
            out.push(c);
            assert(before.push(c) =~= before + seq![c]);
        }
        assert(s@.take(i + 1).drop_last() =~= s@.take(i as int));
        assert(out@ =~= old(out)@ + xml_escaped(s@.take(i + 1)));
        i += 1;
    }
    assert(s@.take(s@.len() as int) =~= s@);
}

/// Escapes a text for XML (`xml_escaped`).
pub fn escape_xml(value: &str) -> (r: String)
    ensures
        r@ == xml_escaped(value@),
{
    let v = chars_of(value);
    let mut out: Vec<char> = Vec::new();
    push_xml_escaped(&mut out, &v);
    assert(out@ =~= xml_escaped(value@));
    string_from(&out)
}

/// One text run of a line.
pub open spec fn text_run(line: Seq<char>) -> Seq<char> {
    "<w:t xml:space=\"preserve\">"@ + xml_escaped(line) + "</w:t>"@
}

/// The runs of the lines of `text` from position `i` on, separated by
/// line breaks (`text.split('\n')`).
pub open spec fn runs_from(text: Seq<char>, i: int) -> Seq<char>
    decreases text.len() + 1 - i,
    when 0 <= i <= text.len()
{
    match find_from(text, seq!['\n'], i) {
        None => text_run(text.subrange(i, text.len() as int)),
        Some(j) => if i <= j < text.len() {
            text_run(text.subrange(i, j)) + "<w:br/>"@ + runs_from(text, j + 1)
        } else {
            Seq::empty()
        },
    }
}

/// One run per line of `text`, with a break between lines.
pub open spec fn text_runs(text: Seq<char>) -> Seq<char> {
    runs_from(text, 0)
}

fn push_run(out: &mut Vec<char>, text: &[char], a: usize, b: usize)
    requires
        a <= b <= text@.len(),
    ensures
        final(out)@ == old(out)@ + text_run(text@.subrange(a as int, b as int)),
{
    let open = chars_of("<w:t xml:space=\"preserve\">");
    let close = chars_of("</w:t>");
    let line = crate::text::slice_to_vec(text, a, b);
    extend(out, &open);
    push_xml_escaped(out, &line);
    extend(out, &close);
    assert(out@ =~= old(out)@ + text_run(text@.subrange(a as int, b as int)));
}

/// `docx_text_runs` on characters.
pub fn docx_text_runs_chars(out: &mut Vec<char>, text: &[char])
    ensures
        final(out)@ == old(out)@ + text_runs(text@),
{
    let br = chars_of("<w:br/>");
    let mut i: usize = 0;
    while i <= text.len()
        invariant
            i <= text@.len(),
            br@ == "<w:br/>"@,
            out@ + runs_from(text@, i as int) == old(out)@ + text_runs(text@),
        decreases text@.len() + 1 - i,
    {
        proof {
            lemma_find_from(text@, seq!['\n'], i as int);
        }
        match find_char_from(text, '\n', i) {
            None => {
                push_run(out, text, i, text.len());
                return;
            },
            Some(j) => {
                assert(matches_at(text@, j as int, seq!['\n']));
                let ghost before = out@;
                push_run(out, text, i, j);
                extend(out, &br);
                assert(before + runs_from(text@, i as int) =~= out@ + runs_from(text@, j + 1));
                i = j + 1;
            },
        }
    }
}

/// The Word runs of a text, one per line (`text_runs`).
pub fn docx_text_runs(text: &str) -> (r: String)
    ensures
        r@ == text_runs(text@),
{
    let t = chars_of(text);
    let mut out: Vec<char> = Vec::new();
    docx_text_runs_chars(&mut out, &t);
    assert(out@ =~= text_runs(text@));
    string_from(&out)
}

/// The paragraph-style element of a style (nothing for `Normal`).
pub open spec fn style_xml(style: DocxStyle) -> Seq<char> {
    match style {
        DocxStyle::Normal => Seq::empty(),
        DocxStyle::Heading(level) => "<w:pStyle w:val=\"Heading"@ + seq![
            (0x30 + (if level < 6 { level as int } else { 6 })) as char,
        ] + "\"/>"@,
        DocxStyle::Quote => "<w:pStyle w:val=\"Quote\"/>"@,
        DocxStyle::List => "<w:pStyle w:val=\"ListParagraph\"/>"@,
        DocxStyle::Code => "<w:pStyle w:val=\"CodeBlock\"/>"@,
    }
}

/// The run properties of a style: a monospace font for code.
pub open spec fn run_properties(style: DocxStyle) -> Seq<char> {
    if style is Code {
        CODE_RUN_PROPERTIES@
    } else {
        Seq::empty()
    }
}

pub const CODE_RUN_PROPERTIES: &'static str = "<w:rPr><w:rFonts w:ascii=\"JetBrains Mono NL\" w:hAnsi=\"JetBrains Mono NL\"/><w:sz w:val=\"20\"/></w:rPr>";

/// One `<w:p>` element.
pub open spec fn paragraph_xml(style: DocxStyle, text: Seq<char>) -> Seq<char> {
    "<w:p><w:pPr>"@ + style_xml(style) + "</w:pPr><w:r>"@ + run_properties(style) + text_runs(text)
        + "</w:r></w:p>"@
}

fn push_style_xml(out: &mut Vec<char>, style: DocxStyle)
    ensures
        final(out)@ == old(out)@ + style_xml(style),
{
    match style {
        DocxStyle::Normal => {
            assert(old(out)@ + Seq::<char>::empty() =~= old(out)@);
        },
        DocxStyle::Heading(level) => {
            let head = chars_of("<w:pStyle w:val=\"Heading");
            extend(out, &head);
            let l: u32 = if level < 6 {
                level as u32
            } else {
                6
            };
            let d = crate::text::char_from_ascii(0x30 + l);
            out.push(d);
            let tail = chars_of("\"/>");
            extend(out, &tail);
            assert(out@ =~= old(out)@ + style_xml(style));
        },
        DocxStyle::Quote => {
            let v = chars_of("<w:pStyle w:val=\"Quote\"/>");
            extend(out, &v);
        },
        DocxStyle::List => {
            let v = chars_of("<w:pStyle w:val=\"ListParagraph\"/>");
            extend(out, &v);
        },
        DocxStyle::Code => {
            let v = chars_of("<w:pStyle w:val=\"CodeBlock\"/>");
            extend(out, &v);
        },
    }
}

/// Appends `docx_paragraph(style, text)`.
pub fn push_docx_paragraph(out: &mut Vec<char>, style: DocxStyle, text: &[char])
    ensures
        final(out)@ == old(out)@ + paragraph_xml(style, text@),
{
    let a = chars_of("<w:p><w:pPr>");
    extend(out, &a);
    push_style_xml(out, style);
    let b = chars_of("</w:pPr><w:r>");
    extend(out, &b);
    let ghost mid = out@;
    match style {
        DocxStyle::Code => {
            let rp = chars_of(CODE_RUN_PROPERTIES);
            extend(out, &rp);
        },
        _ => {
            assert(mid + Seq::<char>::empty() =~= mid);
        },
    }
    docx_text_runs_chars(out, text);
    let c = chars_of("</w:r></w:p>");
    extend(out, &c);
    assert(out@ =~= old(out)@ + paragraph_xml(style, text@));
}

/// One Word paragraph element of the given style and text.
pub fn docx_paragraph(style: DocxStyle, text: &str) -> (r: String)
    ensures
        r@ == paragraph_xml(style, text@),
{
    let t = chars_of(text);
    let mut out: Vec<char> = Vec::new();
    push_docx_paragraph(&mut out, style, &t);
    assert(out@ =~= paragraph_xml(style, text@));
    string_from(&out)
}

/// The paragraphs of `blocks`, one after another.
pub open spec fn paragraphs_xml(blocks: Seq<(DocxStyle, Seq<char>)>) -> Seq<char>
    decreases blocks.len(),
{
    if blocks.len() == 0 {
        Seq::empty()
    } else {
        paragraphs_xml(blocks.drop_last()) + paragraph_xml(blocks.last().0, blocks.last().1)
    }
}

/// The `word/document.xml` part holding the blocks.
pub open spec fn document_xml(blocks: Seq<(DocxStyle, Seq<char>)>) -> Seq<char> {
    DOCUMENT_XML_HEAD@ + paragraphs_xml(blocks) + DOCUMENT_XML_TAIL@
}

/// The Word document part holding the given blocks.
pub fn docx_document_xml(blocks: &[DocxBlock]) -> (r: String)
    ensures
        r@ == document_xml(blocks_view(blocks@)),
{
    let mut out = chars_of(DOCUMENT_XML_HEAD);
    let mut i: usize = 0;
    assert(blocks@.take(0) =~= Seq::<DocxBlock>::empty());
    assert(blocks_view(blocks@.take(0)) =~= Seq::<(DocxStyle, Seq<char>)>::empty());
    while i < blocks.len()
        invariant
            i <= blocks@.len(),
            out@ == DOCUMENT_XML_HEAD@ + paragraphs_xml(blocks_view(blocks@.take(i as int))),
        decreases blocks@.len() - i,
    {
        match &blocks[i] {
            DocxBlock::Paragraph { style, text } => {
                let t = chars_of(text.as_str());
                push_docx_paragraph(&mut out, *style, &t);
            },
        }
        assert(blocks_view(blocks@.take(i + 1)).drop_last() =~= blocks_view(blocks@.take(i as int)));
        i += 1;
    }
    let tail = chars_of(DOCUMENT_XML_TAIL);
    extend(&mut out, &tail);
    assert(blocks@.take(blocks@.len() as int) =~= blocks@);
    string_from(&out)
}

pub const DOCUMENT_XML_HEAD: &'static str = r#"<?xml version="1.0" encoding="UTF-8" standalone="yes"?>
<w:document xmlns:wpc="http://schemas.microsoft.com/office/word/2010/wordprocessingCanvas" xmlns:mc="http://schemas.openxmlformats.org/markup-compatibility/2006" xmlns:o="urn:schemas-microsoft-com:office:office" xmlns:r="http://schemas.openxmlformats.org/officeDocument/2006/relationships" xmlns:m="http://schemas.openxmlformats.org/officeDocument/2006/math" xmlns:v="urn:schemas-microsoft-com:vml" xmlns:wp14="http://schemas.microsoft.com/office/word/2010/wordprocessingDrawing" xmlns:wp="http://schemas.openxmlformats.org/drawingml/2006/wordprocessingDrawing" xmlns:w10="urn:schemas-microsoft-com:office:word" xmlns:w="http://schemas.openxmlformats.org/wordprocessingml/2006/main" xmlns:w14="http://schemas.microsoft.com/office/word/2010/wordml" xmlns:wpg="http://schemas.microsoft.com/office/word/2010/wordprocessingGroup" xmlns:wpi="http://schemas.microsoft.com/office/word/2010/wordprocessingInk" xmlns:wne="http://schemas.microsoft.com/office/word/2006/wordml" xmlns:wps="http://schemas.microsoft.com/office/word/2010/wordprocessingShape" mc:Ignorable="w14 wp14">
  <w:body>
    "#;

pub const DOCUMENT_XML_TAIL: &'static str = r#"
    <w:sectPr>
      <w:pgSz w:w="11906" w:h="16838"/>
      <w:pgMar w:top="1440" w:right="1530" w:bottom="1440" w:left="1530" w:header="720" w:footer="720" w:gutter="0"/>
    </w:sectPr>
  </w:body>
</w:document>"#;

} // verus!
