//! Headings, anchors and document statistics.
use vstd::prelude::*;
use crate::model::{DocumentStats, OutlineItem, OutlineView, outline_view};
use crate::text::{
    chars_of, decimal, extend, extend_range, find_from, find_from_exec, is_ascii_alnum,
    is_ascii_punct, is_whitespace, is_ws, lead_ws, lemma_find_from, lemma_lead_ws,
    lemma_line_end, lemma_word_end, line_end, lines, lines_from, lower, matches_at,
    next_line, push_decimal, skip_word, skip_ws, slice_to_vec, string_from, to_ascii_lower,
    trim, trim_char, trim_char_exec, trim_end_char, trim_end_char_exec, trim_start,
    trim_str, word_end,
};

verus! {

/// Whether `char::is_alphanumeric` holds (Unicode `Alphabetic` or `Numeric`).
pub uninterp spec fn unicode_alphanumeric(c: char) -> bool;

/// Whether a character is a letter or digit, as `char::is_alphanumeric` says.
#[verifier::external_body]
fn is_alphanumeric(c: char) -> (r: bool)
    ensures
        r == unicode_alphanumeric(c),
{
    c.is_alphanumeric()
}

/// What a title character becomes in an anchor: ASCII letters and digits
/// lower-cased, whitespace, `-` and `_` a `-`, other alphanumerics kept,
/// anything else dropped.
pub open spec fn slug_char(c: char) -> Option<char> {
    if is_ascii_alnum(c) {
        Some(lower(c))
    } else if is_ws(c) || c == '-' || c == '_' {
        Some('-')
    } else if unicode_alphanumeric(c) {
        Some(c)
    } else {
        None
    }
}

pub open spec fn slug_chars(s: Seq<char>) -> Seq<char>
    decreases s.len(),
{
    if s.len() == 0 {
        Seq::empty()
    } else {
        slug_chars(s.drop_last()) + match slug_char(s.last()) {
            Some(c) => seq![c],
            None => Seq::empty(),
        }
    }
}

/// The anchor of a heading on line `line` (counted from 0): its
/// slug without surrounding dashes (or `section`), a dash and the line
/// number counted from 1.
pub open spec fn slug(title: Seq<char>, line: nat) -> Seq<char> {
    let base = trim_char(slug_chars(title), '-');
    (if base.len() == 0 {
        "section"@
    } else {
        base
    }) + seq!['-'] + decimal(line + 1)
}

fn push_slug_chars(out: &mut Vec<char>, s: &[char])
    ensures
        final(out)@ == old(out)@ + slug_chars(s@),
{
    let mut i: usize = 0;
    assert(s@.take(0) =~= Seq::<char>::empty());
    assert(old(out)@ + Seq::<char>::empty() =~= old(out)@);
    while i < s.len()
        invariant
            i <= s@.len(),
            out@ == old(out)@ + slug_chars(s@.take(i as int)),
        decreases s@.len() - i,
    {
        let c = s[i];
        let ghost before = out@;
        if ('A' <= c && c <= 'Z') || ('a' <= c && c <= 'z') || ('0' <= c && c <= '9') {
            out.push(to_ascii_lower(c));
        } else if is_whitespace(c) || c == '-' || c == '_' {
            out.push('-');
        } else if is_alphanumeric(c) {
            out.push(c);
        }
        assert(s@.take(i + 1).drop_last() =~= s@.take(i as int));
        assert(out@ =~= old(out)@ + slug_chars(s@.take(i + 1)));
        i += 1;
    }
    assert(s@.take(s@.len() as int) =~= s@);
}

/// `slugify` (the line number must leave room for one more).
pub fn slugify(title: &str, line: usize) -> (r: String)
    requires
        line < usize::MAX,
    ensures
        r@ == slug(title@, line as nat),
{
    let t = chars_of(title);
    let mut s: Vec<char> = Vec::new();
    push_slug_chars(&mut s, &t);
    assert(s@ =~= slug_chars(title@));
    let base = trim_char_exec(&s, '-');
    let mut out = if base.len() == 0 {
        chars_of("section")
    } else {
        base
    };
    out.push('-');
    push_decimal(&mut out, line + 1);
    string_from(&out)
}

/// Number of leading `c` characters of `s` from position `i` on.
pub open spec fn lead_count(s: Seq<char>, c: char, i: int) -> int
    decreases s.len() - i,
{
    if 0 <= i < s.len() && s[i] == c {
        lead_count(s, c, i + 1)
    } else {
        i
    }
}

/// The heading on a line (counted from 0), if it is one: optional
/// indentation, one to six `#`, then (after any whitespace) a title that is
/// not empty once trailing `#` and surrounding whitespace are gone.
pub open spec fn heading_of(line: Seq<char>, index: nat) -> Option<OutlineView> {
    let t = trim_start(line);
    let h = lead_count(t, '#', 0);
    let rest = trim_start(t.skip(h));
    let title = trim(trim_end_char(rest, '#'));
    if h == 0 || h > 6 || rest.len() == 0 || title.len() == 0 {
        None
    } else {
        Some(OutlineView { level: h as u8, title, anchor: slug(title, index), line: (index + 1) as int })
    }
}

/// The headings among the lines `ls`, in order.
pub open spec fn headings(ls: Seq<Seq<char>>) -> Seq<OutlineView>
    decreases ls.len(),
{
    if ls.len() == 0 {
        Seq::empty()
    } else {
        headings(ls.drop_last()) + match heading_of(ls.last(), (ls.len() - 1) as nat) {
            Some(h) => seq![h],
            None => Seq::empty(),
        }
    }
}

/// The headings of the document's lines.
pub open spec fn outline_of(md: Seq<char>) -> Seq<OutlineView> {
    headings(lines(md))
}

proof fn lemma_decimal_digits(n: nat)
    ensures
        decimal(n).len() > 0,
        forall|k: int| 0 <= k < decimal(n).len() ==> '0' <= #[trigger] decimal(n)[k] <= '9',
    decreases n,
{
    if n >= 10 {
        lemma_decimal_digits(n / 10);
        let a = decimal(n / 10);
        let d = seq![(0x30 + n % 10) as char];
        assert forall|k: int| 0 <= k < (a + d).len() implies '0' <= #[trigger] (a + d)[k] <= '9' by {
            if k >= a.len() {
                assert((a + d)[k] == d[k - a.len()]);
            } else {
                assert((a + d)[k] == a[k]);
            }
        }
    }
}

proof fn lemma_decimal_injective(a: nat, b: nat)
    requires
        decimal(a) == decimal(b),
    ensures
        a == b,
    decreases a + b,
{
    lemma_decimal_digits(a / 10);
    lemma_decimal_digits(b / 10);
    let da = decimal(a);
    let db = decimal(b);
    if a < 10 && b < 10 {
        assert(da[0] == db[0]);
        assert(((0x30 + a) as char) as u32 == 0x30 + a);
        assert(((0x30 + b) as char) as u32 == 0x30 + b);
    } else if a < 10 {
        assert(da.len() == 1);
        assert(db.len() >= 2);
    } else if b < 10 {
        assert(db.len() == 1);
        assert(da.len() >= 2);
    } else {
        assert(da.last() == db.last());
        assert(((0x30 + a % 10) as char) as u32 == 0x30 + a % 10);
        assert(((0x30 + b % 10) as char) as u32 == 0x30 + b % 10);
        assert(da.drop_last() =~= decimal(a / 10));
        assert(db.drop_last() =~= decimal(b / 10));
        lemma_decimal_injective(a / 10, b / 10);
    }
}

/// The anchor determines the line number it ends with.
proof fn lemma_slug_line(t1: Seq<char>, l1: nat, t2: Seq<char>, l2: nat)
    requires
        slug(t1, l1) == slug(t2, l2),
    ensures
        l1 == l2,
{
    let b1 = {
        let base = trim_char(slug_chars(t1), '-');
        if base.len() == 0 { "section"@ } else { base }
    };
    let b2 = {
        let base = trim_char(slug_chars(t2), '-');
        if base.len() == 0 { "section"@ } else { base }
    };
    let d1 = decimal(l1 + 1);
    let d2 = decimal(l2 + 1);
    lemma_decimal_digits(l1 + 1);
    lemma_decimal_digits(l2 + 1);
    let s = slug(t1, l1);
    assert(s == b1 + seq!['-'] + d1);
    assert(s == b2 + seq!['-'] + d2);
    if d1.len() < d2.len() {
        assert(s[s.len() - d1.len() - 1] == '-');
        assert(s[s.len() - d1.len() - 1] == d2[d2.len() - d1.len() - 1]);
    } else if d2.len() < d1.len() {
        assert(s[s.len() - d2.len() - 1] == '-');
        assert(s[s.len() - d2.len() - 1] == d1[d1.len() - d2.len() - 1]);
    } else {
        assert(s.skip(s.len() - d1.len()) =~= d1);
        assert(s.skip(s.len() - d2.len()) =~= d2);
    }
    lemma_decimal_injective(l1 + 1, l2 + 1);
}

proof fn lemma_headings_lines(ls: Seq<Seq<char>>)
    ensures
        forall|i: int|
            0 <= i < headings(ls).len() ==> 1 <= (#[trigger] headings(ls)[i]).line <= ls.len()
                && headings(ls)[i].anchor == slug(
                headings(ls)[i].title,
                (headings(ls)[i].line - 1) as nat,
            ),
        forall|i: int, j: int|
            0 <= i < j < headings(ls).len() ==> (#[trigger] headings(ls)[i]).line
                < (#[trigger] headings(ls)[j]).line,
    decreases ls.len(),
{
    if ls.len() > 0 {
        let d = ls.drop_last();
        lemma_headings_lines(d);
        let r = headings(d);
        let k = (ls.len() - 1) as nat;
        match heading_of(ls.last(), k) {
            Some(h) => {
                let q = r + seq![h];
                assert(headings(ls) == q);
                assert forall|i: int| 0 <= i < q.len() implies 1 <= (#[trigger] q[i]).line <= ls.len()
                    && q[i].anchor == slug(q[i].title, (q[i].line - 1) as nat) by {
                    if i < r.len() {
                        assert(q[i] == r[i]);
                    }
                }
                assert forall|i: int, j: int| 0 <= i < j < q.len() implies (#[trigger] q[i]).line
                    < (#[trigger] q[j]).line by {
                    assert(q[i] == r[i]);
                    if j < r.len() {
                        assert(q[j] == r[j]);
                    }
                }
            },
            None => {
                assert(headings(ls) == r + Seq::<OutlineView>::empty());
                assert(r + Seq::<OutlineView>::empty() =~= r);
            },
        }
    }
}

/// Law: the headings of a document have distinct anchors, so scrolling to
/// an anchor reaches one heading.
pub proof fn lemma_outline_anchors_distinct(md: Seq<char>)
    ensures
        forall|i: int, j: int|
            0 <= i < j < outline_of(md).len() ==> (#[trigger] outline_of(md)[i]).anchor
                != (#[trigger] outline_of(md)[j]).anchor,
{
    let o = outline_of(md);
    lemma_headings_lines(lines(md));
    assert forall|i: int, j: int| 0 <= i < j < o.len() implies (#[trigger] o[i]).anchor
        != (#[trigger] o[j]).anchor by {
        if o[i].anchor == o[j].anchor {
            lemma_slug_line(
                o[i].title,
                (o[i].line - 1) as nat,
                o[j].title,
                (o[j].line - 1) as nat,
            );
        }
    }
}

/// The heading on one line (exec).
fn heading_at(line: &[char], index: usize) -> (r: Option<OutlineItem>)
    requires
        index < usize::MAX,
    ensures
        match r {
            Some(item) => heading_of(line@, index as nat) == Some(item.view_of()),
            None => heading_of(line@, index as nat) is None,
        },
{
    let a = skip_ws(line, 0);
    proof {
        lemma_lead_ws(line@, 0);
        crate::text::lemma_trim_start_skip(line@, 0);
        assert(line@.skip(0) =~= line@);
    }
    let t = slice_to_vec(line, a, line.len());
    assert(t@ =~= trim_start(line@));
    let mut h: usize = 0;
    while h < t.len() && t[h] == '#'
        invariant
            h <= t@.len(),
            lead_count(t@, '#', h as int) == lead_count(t@, '#', 0),
        decreases t@.len() - h,
    {
        h += 1;
    }
    if h == 0 || h > 6 {
        return None;
    }
    let r0 = slice_to_vec(&t, h, t.len());
    assert(r0@ =~= t@.skip(h as int));
    let b = skip_ws(&r0, 0);
    proof {
        lemma_lead_ws(r0@, 0);
        crate::text::lemma_trim_start_skip(r0@, 0);
        assert(r0@.skip(0) =~= r0@);
    }
    let rest = slice_to_vec(&r0, b, r0.len());
    assert(rest@ =~= trim_start(t@.skip(h as int)));
    if rest.len() == 0 {
        return None;
    }
    let stripped = trim_end_char_exec(&rest, '#');
    let title = trim_str(&stripped);
    if title.len() == 0 {
        return None;
    }
    let title_s = string_from(&title);
    let anchor = slugify(title_s.as_str(), index);
    Some(OutlineItem { level: h as u8, anchor, title: title_s, line: index + 1 })
}

/// The headings of a Markdown text (`outline_of`).
pub fn extract_outline(markdown: &str) -> (r: Vec<OutlineItem>)
    ensures
        outline_view(r@) == outline_of(markdown@),
{
    let md = chars_of(markdown);
    let mut items: Vec<OutlineItem> = Vec::new();
    let mut i: usize = 0;
    let mut index: usize = 0;
    let ghost all = lines(md@);
    assert(all.take(0) =~= Seq::<Seq<char>>::empty());
    assert(outline_view(items@) =~= Seq::<OutlineView>::empty());
    assert(all.skip(0) =~= all);
    while i < md.len()
        invariant
            i <= md@.len(),
            md@ == markdown@,
            all == lines(md@),
            index <= i,
            index <= all.len(),
            all.skip(index as int) == lines_from(md@, i as int),
            outline_view(items@) == headings(all.take(index as int)),
        decreases md@.len() - i,
    {
        let (a, b, next) = next_line(&md, i);
        let line = slice_to_vec(&md, a, b);
        proof {
            lemma_line_end(md@, i as int);
            assert(lines_from(md@, i as int)[0] == line@);
            assert(lines_from(md@, i as int).len() > 0);
            assert(index < all.len());
            assert(all[index as int] == line@) by {
                assert(all.skip(index as int)[0] == all[index as int]);
            }
            assert(all.skip(index + 1) =~= lines_from(md@, next as int)) by {
                assert(all.skip(index + 1) =~= all.skip(index as int).drop_first());
            }
            assert(all.take(index + 1).drop_last() =~= all.take(index as int));
        }
        let ghost before = items@;
        match heading_at(&line, index) {
            Some(item) => {
                items.push(item);
                assert(outline_view(items@) =~= outline_view(before).push(item.view_of()));
            },
            None => {},
        }
        assert(outline_view(items@) =~= headings(all.take(index + 1)));
        i = next;
        index += 1;
    }
    proof {
        assert(lines_from(md@, i as int) =~= Seq::<Seq<char>>::empty());
        assert(all.take(index as int) =~= all) by {
            assert(all.skip(index as int).len() == 0);
        }
    }
    items
}


/// The attribute escape of one character.
pub open spec fn attr_escape_char(c: char) -> Seq<char> {
    if c == '&' {
        "&amp;"@
    } else if c == '"' {
        "&quot;"@
    } else if c == '<' {
        "&lt;"@
    } else if c == '>' {
        "&gt;"@
    } else {
        seq![c]
    }
}

/// `escape_attr` (and `escape_html`): `&`, `"`, `<` and `>` become entities.
pub open spec fn attr_escaped(s: Seq<char>) -> Seq<char>
    decreases s.len(),
{
    if s.len() == 0 {
        Seq::empty()
    } else {
        attr_escaped(s.drop_last()) + attr_escape_char(s.last())
    }
}

/// Law: escaped text holds no `<`, `>` or `"`, so it cannot end an
/// attribute value or open a tag.
pub proof fn lemma_attr_escaped_inert(s: Seq<char>)
    ensures
        forall|k: int|
            0 <= k < attr_escaped(s).len() ==> #[trigger] attr_escaped(s)[k] != '<'
                && attr_escaped(s)[k] != '>' && attr_escaped(s)[k] != '"',
    decreases s.len(),
{
    if s.len() > 0 {
        lemma_attr_escaped_inert(s.drop_last());
        reveal_strlit("&amp;");
        reveal_strlit("&quot;");
        reveal_strlit("&lt;");
        reveal_strlit("&gt;");
        let a = attr_escaped(s.drop_last());
        let e = attr_escape_char(s.last());
        assert forall|k: int| 0 <= k < (a + e).len() implies #[trigger] (a + e)[k] != '<' && (a
            + e)[k] != '>' && (a + e)[k] != '"' by {
            if k >= a.len() {
                assert((a + e)[k] == e[k - a.len()]);
            } else {
                assert((a + e)[k] == a[k]);
            }
        }
    }
}

/// Appends the attribute escape of `s`.
pub fn push_attr_escaped(out: &mut Vec<char>, s: &[char])
    ensures
        final(out)@ == old(out)@ + attr_escaped(s@),
{
    let amp = chars_of("&amp;");
    let quot = chars_of("&quot;");
    let lt = chars_of("&lt;");
    let gt = chars_of("&gt;");
    let mut i: usize = 0;
    assert(s@.take(0) =~= Seq::<char>::empty());
    assert(old(out)@ + Seq::<char>::empty() =~= old(out)@);
    while i < s.len()
        invariant
            i <= s@.len(),
            amp@ == "&amp;"@,
            quot@ == "&quot;"@,
            lt@ == "&lt;"@,
            gt@ == "&gt;"@,
            out@ == old(out)@ + attr_escaped(s@.take(i as int)),
        decreases s@.len() - i,
    {
        let c = s[i];
        let ghost before = out@;
        if c == '&' {
            extend(out, &amp);
        } else if c == '"' {
            extend(out, &quot);
        } else if c == '<' {
            extend(out, &lt);
        } else if c == '>' {
            extend(out, &gt);
        } else {
            out.push(c);
            assert(before.push(c) =~= before + seq![c]);
        }
        assert(s@.take(i + 1).drop_last() =~= s@.take(i as int));
        assert(out@ =~= old(out)@ + attr_escaped(s@.take(i + 1)));
        i += 1;
    }
    assert(s@.take(s@.len() as int) =~= s@);
}

/// Escapes a text for an attribute value (`attr_escaped`).
pub fn escape_attr(value: &str) -> (r: String)
    ensures
        r@ == attr_escaped(value@),
{
    let v = chars_of(value);
    let mut out: Vec<char> = Vec::new();
    push_attr_escaped(&mut out, &v);
    assert(out@ =~= attr_escaped(value@));
    string_from(&out)
}

/// The opening tag of a heading level, `<hN>`.
pub open spec fn heading_open(level: u8) -> Seq<char> {
    "<h"@ + decimal(level as nat) + ">"@
}

/// The opening tag with the anchor as its id.
pub open spec fn heading_open_with_id(level: u8, anchor: Seq<char>) -> Seq<char> {
    "<h"@ + decimal(level as nat) + " id=\""@ + attr_escaped(anchor) + "\">"@
}

/// `inject_heading_ids` from search position `pos` on: for each entry in
/// turn, the first `<hN>` at or after the position gets the anchor as id,
/// and the search goes on after it; an entry without such a tag is skipped.
pub open spec fn inject_from(out: Seq<char>, pos: int, items: Seq<OutlineView>) -> Seq<char>
    decreases items.len(),
{
    if items.len() == 0 {
        out
    } else {
        let item = items[0];
        let needle = heading_open(item.level);
        match find_from(out, needle, pos) {
            None => inject_from(out, pos, items.drop_first()),
            Some(idx) => {
                let rep = heading_open_with_id(item.level, item.anchor);
                inject_from(
                    out.take(idx) + rep + out.skip(idx + needle.len()),
                    idx + rep.len(),
                    items.drop_first(),
                )
            },
        }
    }
}

/// Each heading of the outline gives its anchor to the
/// next matching opening tag of the HTML.
pub open spec fn injected(html: Seq<char>, items: Seq<OutlineView>) -> Seq<char> {
    inject_from(html, 0, items)
}

/// Gives each heading of the page the anchor of its outline entry.
pub fn inject_heading_ids(html: &str, outline: &[OutlineItem]) -> (r: String)
    ensures
        r@ == injected(html@, outline_view(outline@)),
{
    let mut output = chars_of(html);
    let mut search_from: usize = 0;
    let mut k: usize = 0;
    let ghost items = outline_view(outline@);
    assert(items.skip(0) =~= items);
    while k < outline.len()
        invariant
            k <= outline@.len(),
            items == outline_view(outline@),
            search_from <= output@.len(),
            inject_from(output@, search_from as int, items.skip(k as int)) == injected(
                html@,
                items,
            ),
        decreases outline@.len() - k,
    {
        let item = &outline[k];
        let mut needle = chars_of("<h");
        push_decimal(&mut needle, item.level as usize);
        let gt = chars_of(">");
        extend(&mut needle, &gt);
        assert(needle@ =~= heading_open(item.level));
        assert(items.skip(k as int)[0] == item.view_of());
        assert(items.skip(k as int).drop_first() =~= items.skip(k + 1));
        proof {
            lemma_find_from(output@, needle@, search_from as int);
        }
        match find_from_exec(&output, &needle, search_from) {
            None => {},
            Some(index) => {
                assert(matches_at(output@, index as int, needle@));
                let mut rep = chars_of("<h");
                push_decimal(&mut rep, item.level as usize);
                let mid = chars_of(" id=\"");
                extend(&mut rep, &mid);
                let anchor = chars_of(item.anchor.as_str());
                push_attr_escaped(&mut rep, &anchor);
                let close = chars_of("\">");
                extend(&mut rep, &close);
                assert(rep@ =~= heading_open_with_id(item.level, item.anchor@));
                let n = output.len();
                assert(index + needle.len() <= n);
                let mut next = slice_to_vec(&output, 0, index);
                extend(&mut next, &rep);
                extend_range(&mut next, &output, index + needle.len(), output.len());
                assert(next@ =~= output@.take(index as int) + rep@ + output@.skip(
                    index + needle@.len(),
                ));
                output = next;
                let n2 = output.len();
                assert(index + rep.len() <= n2);
                search_from = index + rep.len();
            },
        }
        k += 1;
    }
    assert(items.skip(k as int) =~= Seq::<OutlineView>::empty());
    string_from(&output)
}

/// Whether a word has a character other than ASCII punctuation.
pub open spec fn has_non_punct(w: Seq<char>) -> bool {
    exists|k: int| 0 <= k < w.len() && !is_ascii_punct(#[trigger] w[k])
}

/// Number of whitespace-separated words from position `i` on that are not
/// made of punctuation only.
pub open spec fn word_count_from(s: Seq<char>, i: int) -> nat
    decreases s.len() - i,
{
    let a = lead_ws(s, i);
    if i < 0 || a < i || a >= s.len() {
        0
    } else {
        let b = word_end(s, a);
        if b <= a || b > s.len() {
            0
        } else {
            (if has_non_punct(s.subrange(a, b)) {
                1nat
            } else {
                0nat
            }) + word_count_from(s, b)
        }
    }
}

/// Number of non-whitespace characters.
pub open spec fn non_ws_count(s: Seq<char>) -> nat
    decreases s.len(),
{
    if s.len() == 0 {
        0
    } else {
        non_ws_count(s.drop_last()) + if is_ws(s.last()) {
            0nat
        } else {
            1nat
        }
    }
}

/// Words that are not only punctuation, non-whitespace
/// characters, lines (at least one), and reading minutes at 240 units a
/// minute (at least one), a unit being a word or two characters, whichever
/// count is larger.
pub open spec fn stats_of(md: Seq<char>) -> (nat, nat, nat, nat) {
    let words = word_count_from(md, 0);
    let chars = non_ws_count(md);
    let lines = if lines(md).len() == 0 {
        1
    } else {
        lines(md).len()
    };
    let units = if words >= chars / 2 {
        words
    } else {
        chars / 2
    };
    let minutes = if units / 240 == 0 {
        1
    } else {
        units / 240
    };
    (words, chars, lines, minutes)
}

/// Law: the reading time is one minute for every 240 words or 480
/// non-whitespace characters, whichever gives more, and at least one
/// minute: it is never below `words / 240`, never below `chars / 480`,
/// never below one, and equal to one of these three.
pub proof fn lemma_reading_time(md: Seq<char>)
    ensures
        stats_of(md).3 >= 1,
        stats_of(md).3 >= stats_of(md).0 / 240,
        stats_of(md).3 >= stats_of(md).1 / 480,
        stats_of(md).3 == 1 || stats_of(md).3 == stats_of(md).0 / 240 || stats_of(md).3
            == stats_of(md).1 / 480,
{
    let (w, c, l, m) = stats_of(md);
    vstd::arithmetic::div_mod::lemma_div_denominator(c as int, 2, 240);
    assert(((c / 2) as int) / 240 == (c as int) / 480);
    let units = if w >= c / 2 {
        w
    } else {
        c / 2
    };
    vstd::arithmetic::div_mod::lemma_div_is_ordered(w as int, units as int, 240);
    vstd::arithmetic::div_mod::lemma_div_is_ordered((c / 2) as int, units as int, 240);
}

proof fn lemma_word_count_bound(s: Seq<char>, i: int)
    requires
        0 <= i <= s.len(),
    ensures
        word_count_from(s, i) <= s.len() - i,
    decreases s.len() - i,
{
    let a = lead_ws(s, i);
    lemma_lead_ws(s, i);
    if a < s.len() {
        lemma_word_end(s, a);
        lemma_word_count_bound(s, word_end(s, a));
    }
}

proof fn lemma_lines_bound(s: Seq<char>, i: int)
    requires
        0 <= i <= s.len(),
    ensures
        lines_from(s, i).len() <= s.len() - i,
    decreases s.len() - i,
{
    if i < s.len() {
        lemma_line_end(s, i);
        let e = line_end(s, i);
        if e < s.len() {
            lemma_lines_bound(s, e + 1);
        }
    }
}

/// The word, character, line and reading-time counts of a text.
pub fn compute_stats(markdown: &str) -> (r: DocumentStats)
    ensures
        (r.words as nat, r.chars as nat, r.lines as nat, r.reading_time_minutes as nat)
            == stats_of(markdown@),
{
    let md = chars_of(markdown);
    let mut words: usize = 0;
    let mut i: usize = 0;
    proof {
        lemma_word_count_bound(md@, 0);
    }
    while i < md.len()
        invariant
            i <= md@.len(),
            md@ == markdown@,
            words + word_count_from(md@, i as int) == word_count_from(md@, 0),
            word_count_from(md@, 0) <= md@.len(),
        decreases md@.len() - i,
    {
        let a = skip_ws(&md, i);
        proof {
            lemma_lead_ws(md@, i as int);
        }
        if a >= md.len() {
            i = a;
        } else {
            let b = skip_word(&md, a);
            proof {
                lemma_word_end(md@, a as int);
            }
            let mut found = false;
            let mut k = a;
            while k < b
                invariant
                    a <= k <= b,
                    b <= md@.len(),
                    found == exists|m: int| a <= m < k && !is_ascii_punct(#[trigger] md@[m]),
                decreases b - k,
            {
                let c = md[k];
                let p = ('!' <= c && c <= '/') || (':' <= c && c <= '@') || ('[' <= c && c <= '`')
                    || ('{' <= c && c <= '~');
                if !p {
                    found = true;
                }
                k += 1;
            }
            proof {
                let w = md@.subrange(a as int, b as int);
                if found {
                    let m = choose|m: int| a <= m < b && !is_ascii_punct(#[trigger] md@[m]);
                    assert(w[m - a] == md@[m]);
                } else {
                    assert forall|m: int| 0 <= m < w.len() implies is_ascii_punct(#[trigger] w[m]) by {
                        assert(w[m] == md@[a + m]);
                    }
                }
            }
            if found {
                words += 1;
            }
            i = b;
        }
    }
    let mut chars: usize = 0;
    let mut j: usize = 0;
    assert(md@.take(0) =~= Seq::<char>::empty());
    while j < md.len()
        invariant
            j <= md@.len(),
            chars == non_ws_count(md@.take(j as int)),
            chars <= j,
        decreases md@.len() - j,
    {
        assert(md@.take(j + 1).drop_last() =~= md@.take(j as int));
        if !is_whitespace(md[j]) {
            chars += 1;
        }
        j += 1;
    }
    assert(md@.take(j as int) =~= md@);
    let mut line_count: usize = 0;
    let mut p: usize = 0;
    assert(lines(md@).skip(0) =~= lines(md@));
    proof {
        lemma_lines_bound(md@, 0);
    }
    while p < md.len()
        invariant
            p <= md@.len(),
            line_count <= p,
            line_count + lines_from(md@, p as int).len() == lines(md@).len(),
        decreases md@.len() - p,
    {
        let (_, _, next) = next_line(&md, p);
        proof {
            lemma_line_end(md@, p as int);
        }
        line_count += 1;
        p = next;
    }
    let lines_n = if line_count == 0 {
        1
    } else {
        line_count
    };
    let units = if words >= chars / 2 {
        words
    } else {
        chars / 2
    };
    let minutes = if units / 240 == 0 {
        1
    } else {
        units / 240
    };
    DocumentStats { words, chars, lines: lines_n, reading_time_minutes: minutes }
}

} // verus!
