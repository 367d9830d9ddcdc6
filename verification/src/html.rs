//! Reading HTML produced by the renderer: entities, tag names, attributes
//! and the document body.
use vstd::prelude::*;
use crate::text::{
    lead_ws, lower_seq, skip_word, skip_ws, trim, trim_end_char, trim_start_char, word_end, ascii_lowercase, trim_str, trim_start_char_exec, trim_end_char_exec, lemma_lead_ws, lemma_word_end,
    chars_of, extend, extend_range, find_char_from, find_from, lemma_find_from, matches_at,
    matches_at_exec, find, find_from_exec, slice_to_vec, starts_with, string_from,
};
use crate::docx::{xml_escape_char, xml_escaped};
use crate::preview::outline::{attr_escape_char, attr_escaped};

verus! {

/// A Unicode scalar value: what `char::from_u32` accepts.
pub open spec fn is_scalar_value(n: int) -> bool {
    0 <= n <= 0x10ffff && !(0xd800 <= n <= 0xdfff)
}

/// `char::from_u32`: the character of a code point, if it is a scalar value.
#[verifier::external_body]
fn char_from_code(code: u32) -> (r: Option<char>)
    ensures
        is_scalar_value(code as int) ==> r == Some(code as char),
        !is_scalar_value(code as int) ==> r is None,
{
    char::from_u32(code)
}

/// The value of a digit in the given radix (`char::to_digit`), for radix 10 or 16.
pub open spec fn digit_value(c: char, radix: int) -> Option<int> {
    if '0' <= c <= '9' && (c as int) - 0x30 < radix {
        Some((c as int) - 0x30)
    } else if radix == 16 && 'a' <= c <= 'f' {
        Some((c as int) - 0x61 + 10)
    } else if radix == 16 && 'A' <= c <= 'F' {
        Some((c as int) - 0x41 + 10)
    } else {
        None
    }
}

/// The number that the digit string `d` spells in `radix`, if every
/// character is a digit.
pub open spec fn digits_value(d: Seq<char>, radix: int) -> Option<int>
    decreases d.len(),
{
    if d.len() == 0 {
        Some(0)
    } else {
        match (digits_value(d.drop_last(), radix), digit_value(d.last(), radix)) {
            (Some(v), Some(x)) => Some(v * radix + x),
            _ => None,
        }
    }
}

/// `u32::from_str_radix` (radix 10 or 16): an optional `+`, then at least one
/// digit, with a value that fits in 32 bits.
pub open spec fn parse_u32(s: Seq<char>, radix: int) -> Option<int> {
    let d = if s.len() > 1 && s[0] == '+' {
        s.drop_first()
    } else {
        s
    };
    if d.len() == 0 || (d.len() == 1 && d[0] == '+') {
        None
    } else {
        match digits_value(d, radix) {
            Some(v) => if v <= u32::MAX {
                Some(v)
            } else {
                None
            },
            None => None,
        }
    }
}

proof fn lemma_digits_value_grows(d: Seq<char>, radix: int, i: int)
    requires
        radix == 10 || radix == 16,
        0 <= i <= d.len(),
        digits_value(d, radix) is Some,
    ensures
        digits_value(d.take(i), radix) is Some,
        0 <= digits_value(d.take(i), radix)->0 <= digits_value(d, radix)->0,
    decreases d.len() - i,
{
    if i == d.len() {
        assert(d.take(i) =~= d);
        lemma_digits_value_nonneg(d, radix);
    } else {
        lemma_digits_value_grows(d, radix, i + 1);
        assert(d.take(i + 1).drop_last() =~= d.take(i));
        let v = digits_value(d.take(i), radix)->0;
        let x = digit_value(d[i], radix)->0;
        lemma_digits_value_nonneg(d.take(i), radix);
        assert(v <= v * radix + x) by (nonlinear_arith)
            requires
                v >= 0,
                x >= 0,
                radix >= 10,
        ;
    }
}

proof fn lemma_digits_value_nonneg(d: Seq<char>, radix: int)
    requires
        radix == 10 || radix == 16,
        digits_value(d, radix) is Some,
    ensures
        digits_value(d, radix)->0 >= 0,
    decreases d.len(),
{
    if d.len() > 0 {
        lemma_digits_value_nonneg(d.drop_last(), radix);
        let v = digits_value(d.drop_last(), radix)->0;
        let x = digit_value(d.last(), radix)->0;
        assert(v * radix + x >= 0) by (nonlinear_arith)
            requires
                v >= 0,
                x >= 0,
                radix >= 10,
        ;
    }
}

fn digit_of(c: char, radix: u32) -> (r: Option<u32>)
    requires
        radix == 10 || radix == 16,
    ensures
        match r {
            Some(x) => digit_value(c, radix as int) == Some(x as int) && x < radix,
            None => digit_value(c, radix as int) is None,
        },
{
    let u = c as u32;
    if '0' <= c && c <= '9' {
        Some(u - 0x30)
    } else if radix == 16 && 'a' <= c && c <= 'f' {
        Some(u - 0x61 + 10)
    } else if radix == 16 && 'A' <= c && c <= 'F' {
        Some(u - 0x41 + 10)
    } else {
        None
    }
}

/// `u32::from_str_radix(s, radix).ok()` for radix 10 or 16.
pub fn parse_u32_exec(s: &[char], radix: u32) -> (r: Option<u32>)
    requires
        radix == 10 || radix == 16,
    ensures
        match r {
            Some(v) => parse_u32(s@, radix as int) == Some(v as int),
            None => parse_u32(s@, radix as int) is None,
        },
{
    let start: usize = if s.len() > 1 && s[0] == '+' {
        1
    } else {
        0
    };
    let ghost d = if s@.len() > 1 && s@[0] == '+' {
        s@.drop_first()
    } else {
        s@
    };
    assert(d =~= s@.skip(start as int));
    if s.len() == start || (s.len() == start + 1 && s[start] == '+') {
        return None;
    }
    let mut v: u32 = 0;
    let mut i: usize = start;
    assert(d.take(0) =~= Seq::<char>::empty());
    while i < s.len()
        invariant
            start <= i <= s@.len(),
            d =~= s@.skip(start as int),
            d == (if s@.len() > 1 && s@[0] == '+' {
                s@.drop_first()
            } else {
                s@
            }),
            radix == 10 || radix == 16,
            digits_value(d.take(i - start), radix as int) == Some(v as int),
        decreases s@.len() - i,
    {
        assert(d.take(i - start + 1).drop_last() =~= d.take(i - start));
        assert(d.take(i - start + 1).last() == s@[i as int]);
        match digit_of(s[i], radix) {
            None => {
                proof {
                    assert(digits_value(d.take(i - start + 1), radix as int) is None);
                    if digits_value(d, radix as int) is Some {
                        lemma_digits_value_grows(d, radix as int, i - start + 1);
                        assert(false);
                    }
                    assert(digits_value(d, radix as int) is None);
                    assert(parse_u32(s@, radix as int) is None);
                }
                return None;
            },
            Some(x) => {
                let big = (v as u64) * (radix as u64) + (x as u64);
                if big > 0xffff_ffff {
                    proof {
                        assert(digits_value(d.take(i - start + 1), radix as int) == Some(
                            big as int,
                        ));
                        if digits_value(d, radix as int) is Some {
                            lemma_digits_value_grows(d, radix as int, i - start + 1);
                        }
                    }
                    return None;
                }
                v = big as u32;
            },
        }
        i += 1;
    }
    assert(d.take(d.len() as int) =~= d);
    Some(v)
}

/// The text that one entity body (between `&` and `;`) decodes to.
pub open spec fn entity_text(e: Seq<char>) -> Seq<char> {
    if e == seq!['a', 'm', 'p'] {
        seq!['&']
    } else if e == seq!['l', 't'] {
        seq!['<']
    } else if e == seq!['g', 't'] {
        seq!['>']
    } else if e == seq!['q', 'u', 'o', 't'] {
        seq!['"']
    } else if e == seq!['a', 'p', 'o', 's'] || e == seq!['#', '3', '9'] {
        seq!['\'']
    } else if starts_with(e, seq!['#', 'x']) {
        code_text(parse_u32(e.skip(2), 16))
    } else if starts_with(e, seq!['#']) {
        code_text(parse_u32(e.skip(1), 10))
    } else {
        seq!['&'] + e + seq![';']
    }
}

/// The character of a parsed code point, or nothing.
pub open spec fn code_text(n: Option<int>) -> Seq<char> {
    match n {
        Some(v) => if is_scalar_value(v) {
            seq![v as char]
        } else {
            Seq::empty()
        },
        None => Seq::empty(),
    }
}

/// Entity decoding of `v` from position `i` on.
pub open spec fn decode_from(v: Seq<char>, i: int) -> Seq<char>
    decreases v.len() - i,
    when 0 <= i <= v.len()
{
    match find_from(v, seq!['&'], i) {
        None => v.subrange(i, v.len() as int),
        Some(a) => if i <= a < v.len() {
            v.subrange(i, a) + match find_from(v, seq![';'], a + 1) {
                None => seq!['&'] + v.subrange(a + 1, v.len() as int),
                Some(e) => if a + 1 <= e < v.len() {
                    entity_text(v.subrange(a + 1, e)) + decode_from(v, e + 1)
                } else {
                    Seq::empty()
                },
            }
        } else {
            Seq::empty()
        },
    }
}

/// What `decode_html_entities` makes of `v`: each `&name;` becomes the
/// character it names (the five XML entities and numeric references), an
/// unknown name is kept as written, a numeric reference that is no scalar
/// value vanishes, and a `&` without a later `;` is kept with the rest.
pub open spec fn decode_entities(v: Seq<char>) -> Seq<char> {
    decode_from(v, 0)
}

proof fn lemma_find_first(s: Seq<char>, p: Seq<char>, j: int, k: int)
    requires
        0 <= j <= k,
        matches_at(s, k, p),
        forall|m: int| j <= m < k ==> !matches_at(s, m, p),
    ensures
        find_from(s, p, j) == Some(k),
    decreases k - j,
{
    if j < k {
        lemma_find_first(s, p, j + 1, k);
    }
}

proof fn lemma_decode_plain(v: Seq<char>, i: int)
    requires
        0 <= i < v.len(),
        v[i] != '&',
    ensures
        decode_from(v, i) == seq![v[i]] + decode_from(v, i + 1),
{
    assert(!matches_at(v, i, seq!['&'])) by {
        if matches_at(v, i, seq!['&']) {
            assert(v.subrange(i, i + 1)[0] == v[i]);
        }
    }
    assert(find_from(v, seq!['&'], i) == find_from(v, seq!['&'], i + 1));
    lemma_find_from(v, seq!['&'], i + 1);
    match find_from(v, seq!['&'], i + 1) {
        None => {
            assert(v.subrange(i, v.len() as int) =~= seq![v[i]] + v.subrange(i + 1, v.len() as int));
        },
        Some(a) => {
            assert(v.subrange(i, a) =~= seq![v[i]] + v.subrange(i + 1, a));
        },
    }
}

proof fn lemma_decode_entity(v: Seq<char>, i: int, name: Seq<char>)
    requires
        0 <= i,
        i + name.len() + 2 <= v.len(),
        v[i] == '&',
        v.subrange(i + 1, i + 1 + name.len()) == name,
        v[i + 1 + name.len()] == ';',
        forall|k: int| 0 <= k < name.len() ==> name[k] != ';',
    ensures
        decode_from(v, i) == entity_text(name) + decode_from(v, i + name.len() + 2),
{
    let e = i + 1 + name.len();
    assert(v.subrange(i, i + 1) =~= seq!['&']);
    assert(find_from(v, seq!['&'], i) == Some(i));
    assert(v.subrange(e, e + 1) =~= seq![';']);
    assert forall|m: int| i + 1 <= m < e implies !matches_at(v, m, seq![';']) by {
        if matches_at(v, m, seq![';']) {
            assert(v.subrange(m, m + 1)[0] == v[m]);
            assert(v[m] == name[m - i - 1]);
        }
    }
    lemma_find_first(v, seq![';'], i + 1, e);
    assert(v.subrange(i, i) =~= Seq::<char>::empty());
    assert(v.subrange(i + 1, e) == name);
}

proof fn lemma_decode_escaped_char(v: Seq<char>, i: int, c: char, u: Seq<char>)
    requires
        u == xml_escape_char(c) || u == attr_escape_char(c),
        0 <= i,
        i + u.len() <= v.len(),
        v.subrange(i, i + u.len()) == u,
    ensures
        decode_from(v, i) == seq![c] + decode_from(v, i + u.len()),
{
    reveal_strlit("&amp;");
    reveal_strlit("&lt;");
    reveal_strlit("&gt;");
    reveal_strlit("&quot;");
    reveal_strlit("&apos;");
    assert(v[i] == u[0]) by {
        assert(v.subrange(i, i + u.len())[0] == v[i]);
    }
    let name = u.subrange(1, u.len() - 1);
    if c == '&' || c == '<' || c == '>' || c == '"' || (c == '\'' && u == xml_escape_char(c)) {
        assert(u.len() >= 4);
        assert(v.subrange(i + 1, i + 1 + name.len()) =~= name);
        assert(v[i + 1 + name.len()] == u[u.len() - 1]) by {
            assert(v.subrange(i, i + u.len())[u.len() - 1] == v[i + u.len() - 1]);
        }
        if c == '&' {
            assert(name =~= seq!['a', 'm', 'p']);
        } else if c == '<' {
            assert(name =~= seq!['l', 't']);
        } else if c == '>' {
            assert(name =~= seq!['g', 't']);
            assert(name != seq!['a', 'm', 'p']);
            assert(name != seq!['l', 't']);
        } else if c == '"' {
            assert(name =~= seq!['q', 'u', 'o', 't']);
        } else {
            assert(name =~= seq!['a', 'p', 'o', 's']);
            assert(name[0] != 'q');
            assert(name != seq!['q', 'u', 'o', 't']);
        }
        lemma_decode_entity(v, i, name);
    } else {
        assert(u == seq![c]);
        lemma_decode_plain(v, i);
    }
}

proof fn lemma_xml_escaped_concat(a: Seq<char>, b: Seq<char>)
    ensures
        xml_escaped(a + b) == xml_escaped(a) + xml_escaped(b),
    decreases b.len(),
{
    if b.len() == 0 {
        assert(a + b =~= a);
        assert(xml_escaped(a) + xml_escaped(b) =~= xml_escaped(a));
    } else {
        assert((a + b).drop_last() =~= a + b.drop_last());
        lemma_xml_escaped_concat(a, b.drop_last());
        assert(xml_escaped(a + b) =~= xml_escaped(a) + xml_escaped(b));
    }
}

proof fn lemma_attr_escaped_concat(a: Seq<char>, b: Seq<char>)
    ensures
        attr_escaped(a + b) == attr_escaped(a) + attr_escaped(b),
    decreases b.len(),
{
    if b.len() == 0 {
        assert(a + b =~= a);
        assert(attr_escaped(a) + attr_escaped(b) =~= attr_escaped(a));
    } else {
        assert((a + b).drop_last() =~= a + b.drop_last());
        lemma_attr_escaped_concat(a, b.drop_last());
        assert(attr_escaped(a + b) =~= attr_escaped(a) + attr_escaped(b));
    }
}

proof fn lemma_decode_at_end(q: Seq<char>)
    ensures
        decode_from(q, q.len() as int) == Seq::<char>::empty(),
{
    assert(q.subrange(q.len() as int, q.len() as int) =~= Seq::<char>::empty());
}

proof fn lemma_decode_xml_from(q: Seq<char>, s: Seq<char>)
    ensures
        decode_from(q + xml_escaped(s), q.len() as int) == s,
    decreases s.len(),
{
    if s.len() == 0 {
        assert(q + xml_escaped(s) =~= q);
        lemma_decode_at_end(q);
    } else {
        let c = s[0];
        let rest = s.skip(1);
        assert(s =~= seq![c] + rest);
        lemma_xml_escaped_concat(seq![c], rest);
        assert(xml_escaped(seq![c]) =~= xml_escape_char(c)) by {
            let one = seq![c];
            assert(one.drop_last() =~= Seq::<char>::empty());
            assert(xml_escaped(one.drop_last()) =~= Seq::<char>::empty());
            assert(one.last() == c);
            assert(xml_escaped(one) =~= xml_escaped(one.drop_last()) + xml_escape_char(c));
        }
        let u = xml_escape_char(c);
        let q2 = q + u;
        let v = q + xml_escaped(s);
        assert(v =~= q2 + xml_escaped(rest));
        assert(v.subrange(q.len() as int, (q.len() + u.len()) as int) =~= u);
        lemma_decode_escaped_char(v, q.len() as int, c, u);
        lemma_decode_xml_from(q2, rest);
    }
}

proof fn lemma_decode_attr_from(q: Seq<char>, s: Seq<char>)
    ensures
        decode_from(q + attr_escaped(s), q.len() as int) == s,
    decreases s.len(),
{
    if s.len() == 0 {
        assert(q + attr_escaped(s) =~= q);
        lemma_decode_at_end(q);
    } else {
        let c = s[0];
        let rest = s.skip(1);
        assert(s =~= seq![c] + rest);
        lemma_attr_escaped_concat(seq![c], rest);
        assert(attr_escaped(seq![c]) =~= attr_escape_char(c)) by {
            let one = seq![c];
            assert(one.drop_last() =~= Seq::<char>::empty());
            assert(attr_escaped(one.drop_last()) =~= Seq::<char>::empty());
            assert(one.last() == c);
            assert(attr_escaped(one) =~= attr_escaped(one.drop_last()) + attr_escape_char(c));
        }
        let u = attr_escape_char(c);
        let q2 = q + u;
        let v = q + attr_escaped(s);
        assert(v =~= q2 + attr_escaped(rest));
        assert(v.subrange(q.len() as int, (q.len() + u.len()) as int) =~= u);
        lemma_decode_escaped_char(v, q.len() as int, c, u);
        lemma_decode_attr_from(q2, rest);
    }
}

/// Law: decoding entities undoes `escape_xml` and `escape_html`: any text
/// escaped either way decodes back to itself.
pub proof fn lemma_decode_undoes_escapes(s: Seq<char>)
    ensures
        decode_entities(xml_escaped(s)) == s,
        decode_entities(attr_escaped(s)) == s,
{
    lemma_decode_xml_from(Seq::empty(), s);
    assert(Seq::<char>::empty() + xml_escaped(s) =~= xml_escaped(s));
    lemma_decode_attr_from(Seq::empty(), s);
    assert(Seq::<char>::empty() + attr_escaped(s) =~= attr_escaped(s));
}

fn lit(s: &str) -> (v: Vec<char>)
    ensures
        v@ == s@,
{
    chars_of(s)
}

pub fn eq_lit(a: &[char], b: &str) -> (r: bool)
    ensures
        r == (a@ == b@),
{
    let bv = chars_of(b);
    if a.len() != bv.len() {
        return false;
    }
    let r = matches_at_exec(a, 0, &bv);
    assert(r == (a@ == bv@)) by {
        if r {
            assert(a@.subrange(0, bv@.len() as int) =~= a@);
        } else {
            assert(a@.subrange(0, a@.len() as int) =~= a@);
        }
    }
    r
}

fn push_code(out: &mut Vec<char>, n: Option<u32>)
    ensures
        final(out)@ == old(out)@ + code_text(
            match n {
                Some(v) => Some(v as int),
                None => None,
            },
        ),
{
    if let Some(code) = n {
        if let Some(ch) = char_from_code(code) {
            out.push(ch);
            assert(old(out)@.push(ch) =~= old(out)@ + seq![ch]);
        } else {
            assert(old(out)@ + Seq::<char>::empty() =~= old(out)@);
        }
    } else {
        assert(old(out)@ + Seq::<char>::empty() =~= old(out)@);
    }
}

/// Appends the decoding of one entity body.
fn push_entity(out: &mut Vec<char>, e: &[char])
    ensures
        final(out)@ == old(out)@ + entity_text(e@),
{
    proof {
        reveal_strlit("amp");
        reveal_strlit("lt");
        reveal_strlit("gt");
        reveal_strlit("quot");
        reveal_strlit("apos");
        reveal_strlit("#39");
        reveal_strlit("#x");
        reveal_strlit("#");
        assert("amp"@ =~= seq!['a', 'm', 'p']);
        assert("lt"@ =~= seq!['l', 't']);
        assert("gt"@ =~= seq!['g', 't']);
        assert("quot"@ =~= seq!['q', 'u', 'o', 't']);
        assert("apos"@ =~= seq!['a', 'p', 'o', 's']);
        assert("#39"@ =~= seq!['#', '3', '9']);
    }
    let hx = lit("#x");
    let hash = lit("#");
    assert(hx@ =~= seq!['#', 'x']);
    assert(hash@ =~= seq!['#']);
    if eq_lit(e, "amp") {
        out.push('&');
        assert(old(out)@.push('&') =~= old(out)@ + seq!['&']);
    } else if eq_lit(e, "lt") {
        out.push('<');
        assert(old(out)@.push('<') =~= old(out)@ + seq!['<']);
    } else if eq_lit(e, "gt") {
        out.push('>');
        assert(old(out)@.push('>') =~= old(out)@ + seq!['>']);
    } else if eq_lit(e, "quot") {
        out.push('"');
        assert(old(out)@.push('"') =~= old(out)@ + seq!['"']);
    } else if eq_lit(e, "apos") || eq_lit(e, "#39") {
        out.push('\'');
        assert(old(out)@.push('\'') =~= old(out)@ + seq!['\'']);
    } else if matches_at_exec(e, 0, &hx) {
        let digits = slice_to_vec(e, 2, e.len());
        assert(digits@ =~= e@.skip(2));
        let n = parse_u32_exec(&digits, 16);
        assert(parse_u32(e@.skip(2), 16) == match n {
            Some(v) => Some(v as int),
            None => None::<int>,
        });
        assert(starts_with(e@, seq!['#', 'x']));
        push_code(out, n);
    } else if matches_at_exec(e, 0, &hash) {
        let digits = slice_to_vec(e, 1, e.len());
        assert(digits@ =~= e@.skip(1));
        let n = parse_u32_exec(&digits, 10);
        assert(parse_u32(e@.skip(1), 10) == match n {
            Some(v) => Some(v as int),
            None => None::<int>,
        });
        assert(!starts_with(e@, seq!['#', 'x']));
        assert(starts_with(e@, seq!['#']));
        push_code(out, n);
    } else {
        assert(!starts_with(e@, seq!['#', 'x']));
        assert(!starts_with(e@, seq!['#']));
        out.push('&');
        extend(out, e);
        out.push(';');
        assert(old(out)@.push('&') + e@ + seq![';'] =~= old(out)@ + (seq!['&'] + e@ + seq![';']));
    }
}

/// Decodes the character entities in `v` (exec, on characters).
pub fn decode_entities_chars(v: &[char]) -> (out: Vec<char>)
    ensures
        out@ == decode_entities(v@),
{
    let mut out: Vec<char> = Vec::new();
    let mut i: usize = 0;
    while i <= v.len()
        invariant
            i <= v@.len(),
            out@ + decode_from(v@, i as int) == decode_entities(v@),
        decreases v@.len() - i,
    {
        proof {
            lemma_find_from(v@, seq!['&'], i as int);
        }
        match find_char_from(v, '&', i) {
            None => {
                extend_range(&mut out, v, i, v.len());
                return out;
            },
            Some(a) => {
                assert(matches_at(v@, a as int, seq!['&']));
                let ghost before = out@;
                extend_range(&mut out, v, i, a);
                proof {
                    lemma_find_from(v@, seq![';'], a + 1);
                }
                match find_char_from(v, ';', a + 1) {
                    None => {
                        out.push('&');
                        extend_range(&mut out, v, a + 1, v.len());
                        assert(out@ =~= before + (v@.subrange(i as int, a as int) + (seq!['&']
                            + v@.subrange(a + 1, v@.len() as int))));
                        return out;
                    },
                    Some(e) => {
                        assert(matches_at(v@, e as int, seq![';']));
                        let ent = slice_to_vec(v, a + 1, e);
                        push_entity(&mut out, &ent);
                        assert(before + decode_from(v@, i as int) =~= out@ + decode_from(
                            v@,
                            e + 1,
                        ));
                        i = e + 1;
                    },
                }
            },
        }
    }
    out
}

/// Decodes the character references of a text (`decode_entities`).
pub fn decode_html_entities(value: &str) -> (r: String)
    ensures
        r@ == decode_entities(value@),
{
    let v = chars_of(value);
    let d = decode_entities_chars(&v);
    string_from(&d)
}


/// The first whitespace-separated word of `s`, or nothing.
pub open spec fn first_word(s: Seq<char>) -> Seq<char> {
    s.subrange(lead_ws(s, 0), word_end(s, lead_ws(s, 0)))
}

/// The lower-cased name of an HTML tag from the text between `<` and `>`:
/// surrounding whitespace and leading `/`, `!`, `?` go, then the first word
/// without trailing `/`; nothing when that is empty.
pub open spec fn tag_name(tag: Seq<char>) -> Option<Seq<char>> {
    let t = trim_start_char(trim_start_char(trim_start_char(trim(tag), '/'), '!'), '?');
    let name = lower_seq(trim_end_char(first_word(t), '/'));
    if name.len() == 0 {
        None
    } else {
        Some(name)
    }
}

/// `html_tag_name` on characters.
pub fn tag_name_chars(tag: &[char]) -> (r: Option<Vec<char>>)
    ensures
        match r {
            Some(n) => tag_name(tag@) == Some(n@),
            None => tag_name(tag@) is None,
        },
{
    let t0 = trim_str(tag);
    let t1 = trim_start_char_exec(&t0, '/');
    let t2 = trim_start_char_exec(&t1, '!');
    let t3 = trim_start_char_exec(&t2, '?');
    let a = skip_ws(&t3, 0);
    proof {
        lemma_lead_ws(t3@, 0);
    }
    let b = skip_word(&t3, a);
    proof {
        lemma_word_end(t3@, a as int);
    }
    let w = slice_to_vec(&t3, a, b);
    let w2 = trim_end_char_exec(&w, '/');
    let name = ascii_lowercase(&w2);
    if name.len() == 0 {
        None
    } else {
        Some(name)
    }
}

/// The lower-cased name of a tag, if it has one.
pub fn html_tag_name(tag: &str) -> (r: Option<String>)
    ensures
        match r {
            Some(n) => tag_name(tag@) == Some(n@),
            None => tag_name(tag@) is None,
        },
{
    let t = chars_of(tag);
    match tag_name_chars(&t) {
        Some(n) => Some(string_from(&n)),
        None => None,
    }
}

/// The decoded value of attribute `name` in a tag: the text after the first
/// `name="` up to the next `"`.
pub open spec fn tag_attr(tag: Seq<char>, name: Seq<char>) -> Option<Seq<char>> {
    let needle = name + seq!['=', '"'];
    match find(tag, needle) {
        None => None,
        Some(i) => {
            let start = i + needle.len();
            match find_from(tag, seq!['"'], start) {
                None => None,
                Some(end) => Some(decode_entities(tag.subrange(start, end))),
            }
        },
    }
}

/// `html_attr` on characters.
pub fn tag_attr_chars(tag: &[char], name: &[char]) -> (r: Option<Vec<char>>)
    ensures
        match r {
            Some(v) => tag_attr(tag@, name@) == Some(v@),
            None => tag_attr(tag@, name@) is None,
        },
{
    let mut needle: Vec<char> = Vec::new();
    extend(&mut needle, name);
    needle.push('=');
    needle.push('"');
    assert(needle@ =~= name@ + seq!['=', '"']);
    proof {
        lemma_find_from(tag@, needle@, 0);
    }
    match find_from_exec(tag, &needle, 0) {
        None => None,
        Some(i) => {
            assert(matches_at(tag@, i as int, needle@));
            let n = tag.len();
            assert(i + needle.len() <= n);
            let start = i + needle.len();
            proof {
                lemma_find_from(tag@, seq!['"'], start as int);
            }
            match find_char_from(tag, '"', start) {
                None => None,
                Some(end) => {
                    assert(matches_at(tag@, end as int, seq!['"']));
                    let raw = slice_to_vec(tag, start, end);
                    Some(decode_entities_chars(&raw))
                },
            }
        },
    }
}

/// The value of an attribute of a tag, if it is there.
pub fn html_attr(tag: &str, name: &str) -> (r: Option<String>)
    ensures
        match r {
            Some(v) => tag_attr(tag@, name@) == Some(v@),
            None => tag_attr(tag@, name@) is None,
        },
{
    let t = chars_of(tag);
    let n = chars_of(name);
    match tag_attr_chars(&t, &n) {
        Some(v) => Some(string_from(&v)),
        None => None,
    }
}

/// The content of the first `<main ...>` element: from just after the `>`
/// that closes the first `<main` to the next `</main>`; the whole input when
/// either is missing.
pub open spec fn main_body(html: Seq<char>) -> Seq<char> {
    match find(html, seq!['<', 'm', 'a', 'i', 'n']) {
        None => html,
        Some(start) => match find_from(html, seq!['>'], start) {
            None => html,
            Some(gt) => match find_from(
                html,
                seq!['<', '/', 'm', 'a', 'i', 'n', '>'],
                gt + 1,
            ) {
                None => html,
                Some(end) => html.subrange(gt + 1, end),
            },
        },
    }
}

/// `extract_main_body` on characters.
pub fn main_body_chars(html: &[char]) -> (r: Vec<char>)
    ensures
        r@ == main_body(html@),
{
    proof {
        reveal_strlit("<main");
        reveal_strlit("</main>");
    }
    let open_tag = chars_of("<main");
    let close_tag = chars_of("</main>");
    assert(open_tag@ =~= seq!['<', 'm', 'a', 'i', 'n']);
    assert(close_tag@ =~= seq!['<', '/', 'm', 'a', 'i', 'n', '>']);
    assert(html@.subrange(0, html@.len() as int) =~= html@);
    proof {
        lemma_find_from(html@, open_tag@, 0);
    }
    match find_from_exec(html, &open_tag, 0) {
        None => slice_to_vec(html, 0, html.len()),
        Some(start) => {
            proof {
                lemma_find_from(html@, seq!['>'], start as int);
            }
            match find_char_from(html, '>', start) {
                None => slice_to_vec(html, 0, html.len()),
                Some(gt) => {
                    assert(matches_at(html@, gt as int, seq!['>']));
                    let n = html.len();
                    assert(gt < n);
                    proof {
                        lemma_find_from(html@, close_tag@, gt + 1);
                    }
                    match find_from_exec(html, &close_tag, gt + 1) {
                        None => slice_to_vec(html, 0, html.len()),
                        Some(end) => {
                            assert(matches_at(html@, end as int, close_tag@));
                            slice_to_vec(html, gt + 1, end)
                        },
                    }
                },
            }
        },
    }
}

/// The content of the main element of a page (`main_body`).
pub fn extract_main_body(html: &str) -> (r: String)
    ensures
        r@ == main_body(html@),
{
    let h = chars_of(html);
    string_from(&main_body_chars(&h))
}

} // verus!
