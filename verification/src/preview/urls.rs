//! Resource URLs: percent encoding, `file://` URLs, and how the exported
//! HTML points at local images, links and packaged copies of them.
use vstd::prelude::*;
use vstd::utf8::{decode_utf8, encode_utf8, is_ascii_chars, valid_utf8};
use crate::paths::{
    Comp, Component, all_normal, components, comps_view, extension, extension_chars, file_name,
    file_name_range, is_absolute, join, lemma_components_plain, lemma_file_name_plain,
    lemma_normals_joined, lemma_plain_skip, lemma_single_component, normals_joined,
    path_components, path_join, path_starts_with, relative_normals, sanitize_relative_path,
    starts_with_path,
};
use crate::text::{
    chars_of, extend, extend_range, find, find_char_from, find_from, find_from_exec,
    lemma_find_from, lower_seq, ascii_lowercase, matches_at, slice_to_vec, string_from,
};
use crate::html::eq_lit;
use crate::settings::strings_view;

verus! {

/// An ASCII letter or digit byte.
pub open spec fn is_alnum_byte(b: u8) -> bool {
    (0x41 <= b <= 0x5a) || (0x61 <= b <= 0x7a) || (0x30 <= b <= 0x39)
}

/// Bytes that stand for themselves in a URL: letters, digits, `-`, `_`,
/// `.`, `~`, and in whole paths also `/` and `:`.
pub open spec fn is_unreserved(b: u8, whole_path: bool) -> bool {
    is_alnum_byte(b) || b == 0x2d || b == 0x5f || b == 0x2e || b == 0x7e || (whole_path && (b
        == 0x2f || b == 0x3a))
}

/// An upper-case hexadecimal digit.
pub open spec fn hex_char(n: int) -> char {
    if n < 10 {
        (0x30 + n) as char
    } else {
        (0x41 + n - 10) as char
    }
}

/// `%XX` for a byte.
pub open spec fn percent_escape(b: u8) -> Seq<char> {
    seq!['%', hex_char(b as int / 16), hex_char(b as int % 16)]
}

/// The percent encoding of a byte string.
pub open spec fn encode_bytes(bs: Seq<u8>, whole_path: bool) -> Seq<char>
    decreases bs.len(),
{
    if bs.len() == 0 {
        Seq::empty()
    } else {
        encode_bytes(bs.drop_last(), whole_path) + if is_unreserved(bs.last(), whole_path) {
            seq![bs.last() as char]
        } else {
            percent_escape(bs.last())
        }
    }
}

/// The UTF-8 bytes of `s`, each unreserved one
/// as itself and every other as `%XX`.
pub open spec fn percent_encoded(s: Seq<char>) -> Seq<char> {
    encode_bytes(encode_utf8(s), false)
}

fn hex_digit(n: u8) -> (c: char)
    requires
        n < 16,
    ensures
        c == hex_char(n as int),
{
    if n < 10 {
        crate::text::char_from_ascii(0x30 + n as u32)
    } else {
        crate::text::char_from_ascii(0x41 + n as u32 - 10)
    }
}

/// Appends the percent encoding of `bs`.
pub fn push_encoded_bytes(out: &mut Vec<char>, bs: &[u8], whole_path: bool)
    ensures
        final(out)@ == old(out)@ + encode_bytes(bs@, whole_path),
{
    let mut i: usize = 0;
    assert(bs@.take(0) =~= Seq::<u8>::empty());
    assert(old(out)@ + Seq::<char>::empty() =~= old(out)@);
    while i < bs.len()
        invariant
            i <= bs@.len(),
            out@ == old(out)@ + encode_bytes(bs@.take(i as int), whole_path),
        decreases bs@.len() - i,
    {
        let b = bs[i];
        let ghost before = out@;
        let keep = (0x41 <= b && b <= 0x5a) || (0x61 <= b && b <= 0x7a) || (0x30 <= b && b <= 0x39)
            || b == 0x2d || b == 0x5f || b == 0x2e || b == 0x7e || (whole_path && (b == 0x2f || b
            == 0x3a));
        if keep {
            out.push(b as char);
        } else {
            out.push('%');
            out.push(hex_digit(b / 16));
            out.push(hex_digit(b % 16));
        }
        assert(bs@.take(i + 1).drop_last() =~= bs@.take(i as int));
        assert(out@ =~= old(out)@ + encode_bytes(bs@.take(i + 1), whole_path));
        i += 1;
    }
    assert(bs@.take(bs@.len() as int) =~= bs@);
}

/// Percent-encodes a path part (`percent_encoded`).
pub fn percent_encode_path_part(value: &str) -> (r: String)
    ensures
        r@ == percent_encoded(value@),
{
    let bs = value.as_bytes();
    let mut out: Vec<char> = Vec::new();
    push_encoded_bytes(&mut out, bs, false);
    assert(out@ =~= percent_encoded(value@));
    string_from(&out)
}

/// The file URL of a path on a Unix host: `file://`, then the path with `\`
/// turned into `/`, percent-encoded as a whole path, and a final `/` for a
/// directory. (A Windows host would also put `/` before a path that does not
/// start with one; paths in this library have their Unix meaning.)
pub open spec fn file_url(path: Seq<char>, is_dir: bool) -> Seq<char> {
    let normalized = path.map_values(|c: char| if c == '\\' { '/' } else { c });
    let url = "file://"@ + encode_bytes(encode_utf8(normalized), true);
    if is_dir && !(url.len() > 0 && url.last() == '/') {
        url.push('/')
    } else {
        url
    }
}

/// Appends `file_url(path, is_dir)`.
pub fn push_file_url(out: &mut Vec<char>, path: &[char], is_dir: bool)
    ensures
        final(out)@ == old(out)@ + file_url(path@, is_dir),
{
    let mut normalized: Vec<char> = Vec::new();
    let mut i: usize = 0;
    while i < path.len()
        invariant
            i <= path@.len(),
            normalized@ == path@.take(i as int).map_values(
                |c: char|
                    if c == '\\' {
                        '/'
                    } else {
                        c
                    },
            ),
        decreases path@.len() - i,
    {
        let c = path[i];
        normalized.push(if c == '\\' { '/' } else { c });
        assert(path@.take(i + 1).map_values(|c: char| if c == '\\' { '/' } else { c })
            =~= normalized@);
        i += 1;
    }
    assert(path@.take(i as int) =~= path@);
    let ns = string_from(&normalized);
    let bs = ns.as_str().as_bytes();
    let mut url = chars_of("file://");
    push_encoded_bytes(&mut url, bs, true);
    let n = url.len();
    if is_dir && !(n > 0 && url[n - 1] == '/') {
        url.push('/');
    }
    extend(out, &url);
}

/// `file_url_for_path`; whether the path is a directory is read by the
/// caller.
pub fn file_url_for_path(path: &str, is_dir: bool) -> (r: String)
    ensures
        r@ == file_url(path@, is_dir),
{
    let p = chars_of(path);
    let mut out: Vec<char> = Vec::new();
    push_file_url(&mut out, &p, is_dir);
    assert(out@ =~= file_url(path@, is_dir));
    string_from(&out)
}

/// The value of a hexadecimal digit byte.
pub open spec fn hex_val(b: u8) -> Option<u8> {
    if 0x30 <= b <= 0x39 {
        Some((b - 0x30) as u8)
    } else if 0x61 <= b <= 0x66 {
        Some((b - 0x61 + 10) as u8)
    } else if 0x41 <= b <= 0x46 {
        Some((b - 0x41 + 10) as u8)
    } else {
        None
    }
}

/// The value of a hexadecimal digit byte.
pub fn hex_value(byte: u8) -> (r: Option<u8>)
    ensures
        r == hex_val(byte),
{
    if 0x30 <= byte && byte <= 0x39 {
        Some(byte - 0x30)
    } else if 0x61 <= byte && byte <= 0x66 {
        Some(byte - 0x61 + 10)
    } else if 0x41 <= byte && byte <= 0x46 {
        Some(byte - 0x41 + 10)
    } else {
        None
    }
}

/// The bytes of `bs` from position `i` on with each `%` followed by two hex
/// digits (and one more byte after them) replaced by the byte they spell.
pub open spec fn decode_bytes_from(bs: Seq<u8>, i: int) -> Seq<u8>
    decreases bs.len() - i,
{
    if i < 0 || i >= bs.len() {
        Seq::empty()
    } else if bs[i] == 0x25 && i + 2 < bs.len() && hex_val(bs[i + 1]) is Some && hex_val(
        bs[i + 2],
    ) is Some {
        seq![(hex_val(bs[i + 1])->0 * 16 + hex_val(bs[i + 2])->0) as u8] + decode_bytes_from(
            bs,
            i + 3,
        )
    } else {
        seq![bs[i]] + decode_bytes_from(bs, i + 1)
    }
}

/// The text `String::from_utf8_lossy` makes of a byte string.
pub uninterp spec fn utf8_lossy(bytes: Seq<u8>) -> Seq<char>;

/// `String::from_utf8_lossy`: valid UTF-8 is decoded as is; other byte
/// strings get replacement characters, which this contract leaves unstated.
#[verifier::external_body]
pub(crate) fn string_from_utf8_lossy(bytes: &[u8]) -> (r: String)
    ensures
        r@ == utf8_lossy(bytes@),
        valid_utf8(bytes@) ==> r@ == decode_utf8(bytes@),
{
    String::from_utf8_lossy(bytes).into_owned()
}

/// The text of a byte string read as UTF-8: the decoded characters when
/// it is valid UTF-8, else what `String::from_utf8_lossy` makes of it.
pub open spec fn lossy_text(bytes: Seq<u8>) -> Seq<char> {
    if valid_utf8(bytes) {
        decode_utf8(bytes)
    } else {
        utf8_lossy(bytes)
    }
}

/// The UTF-8 bytes of `s` with `%XX` escapes replaced,
/// read back as (lossy) UTF-8.
pub open spec fn percent_decoded(s: Seq<char>) -> Seq<char> {
    lossy_text(decode_bytes_from(encode_utf8(s), 0))
}

/// One byte as `percent_encode_path_part` writes it.
pub open spec fn encoded_byte(b: u8, whole_path: bool) -> Seq<char> {
    if is_unreserved(b, whole_path) {
        seq![b as char]
    } else {
        percent_escape(b)
    }
}

proof fn lemma_encode_bytes_front(bs: Seq<u8>, w: bool)
    requires
        bs.len() > 0,
    ensures
        encode_bytes(bs, w) == encoded_byte(bs[0], w) + encode_bytes(bs.drop_first(), w),
    decreases bs.len(),
{
    if bs.len() == 1 {
        assert(bs.drop_last() =~= Seq::<u8>::empty());
        assert(bs.drop_first() =~= Seq::<u8>::empty());
        assert(encode_bytes(bs, w) =~= encoded_byte(bs[0], w) + encode_bytes(bs.drop_first(), w));
    } else {
        lemma_encode_bytes_front(bs.drop_last(), w);
        assert(bs.drop_last().drop_first() =~= bs.drop_first().drop_last());
        assert(bs.drop_first().last() == bs.last());
        assert(bs.drop_last()[0] == bs[0]);
        assert(encode_bytes(bs, w) =~= encoded_byte(bs[0], w) + encode_bytes(bs.drop_first(), w));
    }
}

proof fn lemma_hex_char(n: int)
    requires
        0 <= n < 16,
    ensures
        (hex_char(n) as u32) < 0x80,
        hex_val(hex_char(n) as u8) == Some(n as u8),
{
    if n < 10 {
        assert(((0x30 + n) as char) as u32 == 0x30 + n);
    } else {
        assert(((0x41 + n - 10) as char) as u32 == 0x41 + n - 10);
    }
}

proof fn lemma_encoded_byte_ascii(b: u8, w: bool)
    ensures
        is_ascii_chars(encoded_byte(b, w)),
{
    if !is_unreserved(b, w) {
        lemma_hex_char(b as int / 16);
        lemma_hex_char(b as int % 16);
        let e = percent_escape(b);
        assert forall|i: int| 0 <= i < e.len() implies '\0' <= #[trigger] e[i] <= '\u{7f}' by {}
    } else {
        assert((b as char) as u32 == b);
    }
}

proof fn lemma_encode_bytes_ascii(bs: Seq<u8>, w: bool)
    ensures
        is_ascii_chars(encode_bytes(bs, w)),
    decreases bs.len(),
{
    if bs.len() > 0 {
        lemma_encode_bytes_ascii(bs.drop_last(), w);
        lemma_encoded_byte_ascii(bs.last(), w);
        let a = encode_bytes(bs.drop_last(), w);
        let c = encoded_byte(bs.last(), w);
        assert(encode_bytes(bs, w) == a + c);
        assert forall|i: int| 0 <= i < (a + c).len() implies '\0' <= #[trigger] (a + c)[i]
            <= '\u{7f}' by {
            if i < a.len() {
                assert((a + c)[i] == a[i]);
            } else {
                assert((a + c)[i] == c[i - a.len()]);
            }
        }
    }
}

/// The bytes of an ASCII text.
pub open spec fn ascii_bytes(cs: Seq<char>) -> Seq<u8> {
    cs.map_values(|c: char| c as u8)
}

proof fn lemma_decode_shift(p: Seq<u8>, y: Seq<u8>, j: int)
    requires
        0 <= j,
    ensures
        decode_bytes_from(p + y, p.len() + j) == decode_bytes_from(y, j),
    decreases y.len() - j,
{
    let x = p + y;
    let i = p.len() + j;
    if j < y.len() {
        assert(x[i] == y[j]);
        if j + 1 < y.len() {
            assert(x[i + 1] == y[j + 1]);
        }
        if j + 2 < y.len() {
            assert(x[i + 2] == y[j + 2]);
        }
        lemma_decode_shift(p, y, j + 1);
        if j + 3 <= y.len() {
            lemma_decode_shift(p, y, j + 3);
        }
    }
}

proof fn lemma_decode_encoded(bs: Seq<u8>, w: bool)
    ensures
        decode_bytes_from(ascii_bytes(encode_bytes(bs, w)), 0) == bs,
    decreases bs.len(),
{
    if bs.len() == 0 {
        assert(ascii_bytes(encode_bytes(bs, w)) =~= Seq::<u8>::empty());
        assert(bs =~= Seq::<u8>::empty());
    } else {
        lemma_encode_bytes_front(bs, w);
        lemma_decode_encoded(bs.drop_first(), w);
        let b = bs[0];
        let c = encoded_byte(b, w);
        let rest = encode_bytes(bs.drop_first(), w);
        let p = ascii_bytes(c);
        let y = ascii_bytes(rest);
        assert(ascii_bytes(encode_bytes(bs, w)) =~= p + y);
        lemma_decode_shift(p, y, 0);
        if is_unreserved(b, w) {
            assert((b as char) as u8 == b);
            assert(p =~= seq![b]);
            assert((p + y)[0] == b);
        } else {
            lemma_hex_char(b as int / 16);
            lemma_hex_char(b as int % 16);
            assert((p + y)[0] == 0x25u8);
            assert((p + y)[1] == hex_char(b as int / 16) as u8);
            assert((p + y)[2] == hex_char(b as int % 16) as u8);
            assert(p.len() == 3);
            assert(((b as int / 16) * 16 + b as int % 16) as u8 == b);
        }
        assert(decode_bytes_from(p + y, 0) =~= seq![b] + bs.drop_first());
        assert(seq![b] + bs.drop_first() =~= bs);
    }
}

proof fn lemma_encoded_round_trip(s: Seq<char>, w: bool)
    ensures
        percent_decoded(encode_bytes(encode_utf8(s), w)) == s,
{
    let bs = encode_utf8(s);
    let e = encode_bytes(bs, w);
    lemma_encode_bytes_ascii(bs, w);
    vstd::utf8::is_ascii_chars_encode_utf8(e);
    assert(encode_utf8(e) =~= ascii_bytes(e));
    lemma_decode_encoded(bs, w);
    vstd::utf8::encode_utf8_valid_utf8(s);
    vstd::utf8::encode_utf8_decode_utf8(s);
}

/// Law: percent-decoding what `percent_encode_path_part` made of a text
/// gives the text back.
pub proof fn lemma_percent_round_trip(s: Seq<char>)
    ensures
        percent_decoded(percent_encoded(s)) == s,
{
    lemma_encoded_round_trip(s, false);
}

/// A character a file URL writes as itself or as part of an escape: an
/// unreserved ASCII character of a whole path, or `%`.
pub open spec fn url_char(c: char) -> bool {
    (c as u32) < 0x80 && (c == '%' || is_unreserved(c as u8, true))
}

/// A path with each `\` turned into `/`.
pub open spec fn forward_slashes(path: Seq<char>) -> Seq<char> {
    path.map_values(|c: char| if c == '\\' { '/' } else { c })
}

proof fn lemma_encoded_byte_chars(b: u8, w: bool)
    ensures
        forall|k: int| 0 <= k < encoded_byte(b, w).len() ==> url_char(#[trigger] encoded_byte(b, w)[k]),
{
    if !is_unreserved(b, w) {
        lemma_hex_char(b as int / 16);
        lemma_hex_char(b as int % 16);
        let e = percent_escape(b);
        assert forall|k: int| 0 <= k < e.len() implies url_char(#[trigger] e[k]) by {
            if k > 0 {
                let n = if k == 1 { b as int / 16 } else { b as int % 16 };
                assert(e[k] == hex_char(n));
                if n < 10 {
                    assert(((0x30 + n) as char) as u32 == 0x30 + n);
                } else {
                    assert(((0x41 + n - 10) as char) as u32 == 0x41 + n - 10);
                }
            }
        }
    } else {
        assert((b as char) as u32 == b);
        assert(((b as char) as u8) == b);
        if !w {
            assert(is_unreserved(b, true));
        }
    }
}

proof fn lemma_encode_bytes_chars(bs: Seq<u8>, w: bool)
    ensures
        forall|k: int| 0 <= k < encode_bytes(bs, w).len() ==> url_char(#[trigger] encode_bytes(bs, w)[k]),
    decreases bs.len(),
{
    if bs.len() > 0 {
        lemma_encode_bytes_chars(bs.drop_last(), w);
        lemma_encoded_byte_chars(bs.last(), w);
        let a = encode_bytes(bs.drop_last(), w);
        let c = encoded_byte(bs.last(), w);
        assert(encode_bytes(bs, w) == a + c);
        assert forall|k: int| 0 <= k < (a + c).len() implies url_char(#[trigger] (a + c)[k]) by {
            if k < a.len() {
                assert((a + c)[k] == a[k]);
            } else {
                assert((a + c)[k] == c[k - a.len()]);
            }
        }
    }
}

/// Law: the URL of a file is `file://` followed by unreserved ASCII
/// characters and `%XX` escapes, which decode back to the path with its
/// backslashes turned into slashes (to the path itself when it has none).
pub proof fn lemma_file_url_round_trip(path: Seq<char>)
    ensures
        file_url(path, false).take(7) == "file://"@,
        forall|k: int|
            0 <= k < file_url(path, false).skip(7).len() ==> url_char(
                #[trigger] file_url(path, false).skip(7)[k],
            ),
        percent_decoded(file_url(path, false).skip(7)) == forward_slashes(path),
        (forall|i: int| 0 <= i < path.len() ==> path[i] != '\\') ==> percent_decoded(
            file_url(path, false).skip(7),
        ) == path,
{
    reveal_strlit("file://");
    let n = forward_slashes(path);
    let rest = encode_bytes(encode_utf8(n), true);
    let u = file_url(path, false);
    assert(u == "file://"@ + rest);
    assert(u.take(7) =~= "file://"@);
    assert(u.skip(7) =~= rest);
    lemma_encode_bytes_chars(encode_utf8(n), true);
    lemma_encoded_round_trip(n, true);
    if forall|i: int| 0 <= i < path.len() ==> path[i] != '\\' {
        assert(n =~= path);
    }
}

/// Percent-decodes a text (`percent_decoded`).
pub fn percent_decode(value: &str) -> (r: String)
    ensures
        r@ == percent_decoded(value@),
{
    let bytes = value.as_bytes();
    let mut output: Vec<u8> = Vec::new();
    let mut index: usize = 0;
    while index < bytes.len()
        invariant
            index <= bytes@.len(),
            output@ + decode_bytes_from(bytes@, index as int) == decode_bytes_from(bytes@, 0),
        decreases bytes@.len() - index,
    {
        if bytes[index] == 0x25 && bytes.len() - index > 2 {
            let hi = hex_value(bytes[index + 1]);
            let lo = hex_value(bytes[index + 2]);
            if let (Some(high), Some(low)) = (hi, lo) {
                let b = high * 16 + low;
                let ghost before = output@;
                output.push(b);
                assert(before + decode_bytes_from(bytes@, index as int) =~= output@
                    + decode_bytes_from(bytes@, index + 3));
                index += 3;
                continue ;
            }
        }
        let ghost before = output@;
        output.push(bytes[index]);
        assert(before + decode_bytes_from(bytes@, index as int) =~= output@ + decode_bytes_from(
            bytes@,
            index + 1,
        ));
        index += 1;
    }
    assert(output@ =~= decode_bytes_from(bytes@, 0));
    string_from_utf8_lossy(&output)
}


/// Some text, made only of ASCII letters, digits, `+`,
/// `-` and `.`, before a first `:`.
pub open spec fn has_scheme(v: Seq<char>) -> bool {
    match find(v, seq![':']) {
        None => false,
        Some(c) => forall|k: int|
            0 <= k < c ==> (crate::text::is_ascii_alnum(#[trigger] v[k]) || v[k] == '+' || v[k]
                == '-' || v[k] == '.'),
    }
}

/// Whether a value starts with a URL scheme (`has_scheme`).
pub fn has_url_scheme(value: &[char]) -> (r: bool)
    ensures
        r == has_scheme(value@),
{
    proof {
        lemma_find_from(value@, seq![':'], 0);
    }
    let colon = match find_char_from(value, ':', 0) {
        None => return false,
        Some(c) => c,
    };
    let mut k: usize = 0;
    while k < colon
        invariant
            k <= colon,
            colon <= value@.len(),
            find(value@, seq![':']) == Some(colon as int),
            forall|m: int|
                0 <= m < k ==> (crate::text::is_ascii_alnum(#[trigger] value@[m]) || value@[m]
                    == '+' || value@[m] == '-' || value@[m] == '.'),
        decreases colon - k,
    {
        let c = value[k];
        if !(('A' <= c && c <= 'Z') || ('a' <= c && c <= 'z') || ('0' <= c && c <= '9') || c
            == '+' || c == '-' || c == '.') {
            assert(!(crate::text::is_ascii_alnum(value@[k as int]) || value@[k as int] == '+'
                || value@[k as int] == '-' || value@[k as int] == '.'));
            return false;
        }
        k += 1;
    }
    true
}

/// The first position of `?` or `#` (`str::find(['?', '#'])`).
pub open spec fn query_start(v: Seq<char>, i: int) -> int
    decreases v.len() - i,
{
    if i < 0 || i >= v.len() {
        v.len() as int
    } else if v[i] == '?' || v[i] == '#' {
        i
    } else {
        query_start(v, i + 1)
    }
}

/// A local resource reference: the path it names (decoded, resolved against
/// `base`), its `?`/`#` suffix, and the decoded path as written. Empty
/// values, fragment-only values and values with a URL scheme are none.
pub open spec fn local_parts(v: Seq<char>, base: Seq<char>) -> Option<
    (Seq<char>, Seq<char>, Seq<char>),
> {
    let q = query_start(v, 0);
    let decoded = percent_decoded(v.take(q));
    if v.len() == 0 || v[0] == '#' || has_scheme(v) || q == 0 {
        None
    } else {
        Some(
            (
                if is_absolute(decoded) {
                    decoded
                } else {
                    join(base, decoded)
                },
                v.skip(q),
                decoded,
            ),
        )
    }
}

/// The local path, suffix and written path of a resource reference.
pub fn local_resource_parts(value: &[char], base_dir: &str) -> (r: Option<(String, String, String)>)
    ensures
        match r {
            Some((p, s, o)) => local_parts(value@, base_dir@) == Some((p@, s@, o@)),
            None => local_parts(value@, base_dir@) is None,
        },
{
    if value.len() == 0 || value[0] == '#' || has_url_scheme(value) {
        return None;
    }
    let mut q: usize = 0;
    while q < value.len() && value[q] != '?' && value[q] != '#'
        invariant
            q <= value@.len(),
            query_start(value@, q as int) == query_start(value@, 0),
        decreases value@.len() - q,
    {
        q += 1;
    }
    if q == 0 {
        return None;
    }
    let path_part = string_from(&slice_to_vec(value, 0, q));
    assert(path_part@ =~= value@.take(q as int));
    let suffix = string_from(&slice_to_vec(value, q, value.len()));
    assert(suffix@ =~= value@.skip(q as int));
    let decoded = percent_decode(path_part.as_str());
    let dv = chars_of(decoded.as_str());
    let path = if dv.len() > 0 && dv[0] == '/' {
        string_from(&dv)
    } else {
        path_join(base_dir, decoded.as_str())
    };
    Some((path, suffix, decoded))
}

/// What the exporting side knows of a path on disk.
#[derive(Debug, Clone)]
pub struct PathFacts {
    pub path: String,
    pub is_file: bool,
    pub is_dir: bool,
    pub canonical: Option<String>,
}

/// The facts recorded for a path: is it a file, is it a directory, and its
/// canonical form (the first record for the path; nothing known when none).
pub open spec fn facts_of(t: Seq<PathFacts>, p: Seq<char>) -> (bool, bool, Option<Seq<char>>)
    decreases t.len(),
{
    if t.len() == 0 {
        (false, false, None)
    } else if t[0].path@ == p {
        (
            t[0].is_file,
            t[0].is_dir,
            match t[0].canonical {
                Some(c) => Some(c@),
                None => None,
            },
        )
    } else {
        facts_of(t.drop_first(), p)
    }
}

/// `facts_of` (exec).
pub fn lookup_facts(t: &[PathFacts], p: &[char]) -> (r: (bool, bool, Option<String>))
    ensures
        (r.0, r.1, match r.2 {
            Some(c) => Some(c@),
            None => None::<Seq<char>>,
        }) == facts_of(t@, p@),
{
    let mut i: usize = 0;
    assert(t@.skip(0) =~= t@);
    while i < t.len()
        invariant
            i <= t@.len(),
            facts_of(t@.skip(i as int), p@) == facts_of(t@, p@),
        decreases t@.len() - i,
    {
        assert(t@.skip(i as int)[0] == t@[i as int]);
        assert(t@.skip(i as int).drop_first() =~= t@.skip(i + 1));
        let q = chars_of(t[i].path.as_str());
        let (_, eq) = crate::text::compare_chars(&q, p);
        if eq {
            let c = match &t[i].canonical {
                Some(c) => Some(c.clone()),
                None => None,
            };
            return (t[i].is_file, t[i].is_dir, c);
        }
        i += 1;
    }
    (false, false, None)
}

/// The `file://` URL an export gives a local reference (its suffix kept).
pub open spec fn file_url_value(v: Seq<char>, base: Seq<char>, facts: Seq<PathFacts>) -> Option<
    Seq<char>,
> {
    match local_parts(v, base) {
        None => None,
        Some((path, suffix, _)) => Some(file_url(path, facts_of(facts, path).1) + suffix),
    }
}

/// `rewrite_attribute_urls` from position `i` on: each value after `marker`
/// up to the next `"` is replaced as `f` says, or kept.
pub open spec fn rewrite_from(
    html: Seq<char>,
    marker: Seq<char>,
    i: int,
    f: spec_fn(Seq<char>) -> Option<Seq<char>>,
) -> Seq<char>
    decreases html.len() - i,
{
    if i < 0 || i > html.len() || marker.len() == 0 {
        html.subrange(i, html.len() as int)
    } else {
        match find_from(html, marker, i) {
            None => html.subrange(i, html.len() as int),
            Some(s) => {
                let vs = s + marker.len();
                match find_from(html, seq!['"'], vs) {
                    None => html.subrange(i, html.len() as int),
                    Some(e) => if i <= s && vs <= e && e <= html.len() {
                        html.subrange(i, vs) + match f(html.subrange(vs, e)) {
                            Some(r) => r,
                            None => html.subrange(vs, e),
                        } + rewrite_from(html, marker, e, f)
                    } else {
                        Seq::empty()
                    },
                }
            },
        }
    }
}

/// The local references of `html` after `src="` and then `href="` made into
/// `file://` URLs (`rewrite_relative_resource_urls`).
pub open spec fn file_urls_rewritten(html: Seq<char>, base: Seq<char>, facts: Seq<PathFacts>) -> Seq<
    char,
> {
    let f = |v: Seq<char>| file_url_value(v, base, facts);
    rewrite_from(rewrite_from(html, "src=\""@, 0, f), "href=\""@, 0, f)
}

fn file_url_value_exec(value: &[char], base_dir: &str, facts: &[PathFacts]) -> (r: Option<Vec<char>>)
    ensures
        match r {
            Some(v) => file_url_value(value@, base_dir@, facts@) == Some(v@),
            None => file_url_value(value@, base_dir@, facts@) is None,
        },
{
    match local_resource_parts(value, base_dir) {
        None => None,
        Some((path, suffix, _)) => {
            let p = chars_of(path.as_str());
            let (_, is_dir, _) = lookup_facts(facts, &p);
            let mut out: Vec<char> = Vec::new();
            push_file_url(&mut out, &p, is_dir);
            let sv = chars_of(suffix.as_str());
            extend(&mut out, &sv);
            assert(out@ =~= file_url(path@, facts_of(facts@, path@).1) + suffix@);
            Some(out)
        },
    }
}

/// Local references after `marker` become
/// `file://` URLs.
pub fn rewrite_attribute_urls(html: &[char], marker: &[char], base_dir: &str, facts: &[PathFacts]) -> (r: Vec<char>)
    requires
        marker@.len() > 0,
    ensures
        r@ == rewrite_from(html@, marker@, 0, |v: Seq<char>| file_url_value(v, base_dir@, facts@)),
{
    let ghost f = |v: Seq<char>| file_url_value(v, base_dir@, facts@);
    let mut out: Vec<char> = Vec::new();
    let mut i: usize = 0;
    while i <= html.len()
        invariant
            i <= html@.len(),
            marker@.len() > 0,
            f == |v: Seq<char>| file_url_value(v, base_dir@, facts@),
            out@ + rewrite_from(html@, marker@, i as int, f) == rewrite_from(html@, marker@, 0, f),
        decreases html@.len() - i,
    {
        proof {
            lemma_find_from(html@, marker@, i as int);
        }
        let start = match find_from_exec(html, marker, i) {
            None => {
                extend_range(&mut out, html, i, html.len());
                return out;
            },
            Some(s) => s,
        };
        assert(matches_at(html@, start as int, marker@));
        let n = html.len();
        assert(start + marker.len() <= n);
        let vs = start + marker.len();
        proof {
            lemma_find_from(html@, seq!['"'], vs as int);
        }
        let end = match find_char_from(html, '"', vs) {
            None => {
                extend_range(&mut out, html, i, html.len());
                return out;
            },
            Some(e) => e,
        };
        assert(matches_at(html@, end as int, seq!['"']));
        let ghost before = out@;
        extend_range(&mut out, html, i, vs);
        let value = slice_to_vec(html, vs, end);
        match file_url_value_exec(&value, base_dir, facts) {
            Some(r) => extend(&mut out, &r),
            None => extend(&mut out, &value),
        }
        assert(before + rewrite_from(html@, marker@, i as int, f) =~= out@ + rewrite_from(
            html@,
            marker@,
            end as int,
            f,
        ));
        i = end;
    }
    out
}


/// Whether a lower-cased extension names a media file that exports copy
/// along (images, PDF, audio and video).
pub open spec fn is_media_extension(e: Seq<char>) -> bool {
    e == "apng"@ || e == "avif"@ || e == "bmp"@ || e == "gif"@ || e == "ico"@ || e == "jpeg"@ || e == "jpg"@ || e == "png"@ || e == "svg"@ || e == "webp"@ || e == "pdf"@ || e == "mp3"@ || e == "mp4"@ || e == "ogg"@ || e == "wav"@ || e == "webm"@
}

/// Whether a referenced file is copied into an asset package, by its extension.
pub open spec fn should_package(path: Seq<char>) -> bool {
    match extension(path) {
        Some(e) => is_media_extension(lower_seq(e)),
        None => false,
    }
}

/// Whether a referenced file is copied into an asset package.
pub fn should_package_resource(path: &str) -> (r: bool)
    ensures
        r == should_package(path@),
{
    let p = chars_of(path);
    match extension_chars(&p) {
        None => false,
        Some(e) => {
            let l = ascii_lowercase(&chars_of(e.as_str()));
            eq_lit(&l, "apng") || eq_lit(&l, "avif") || eq_lit(&l, "bmp") || eq_lit(&l, "gif") || eq_lit(&l, "ico") || eq_lit(&l, "jpeg") || eq_lit(&l, "jpg") || eq_lit(&l, "png") || eq_lit(&l, "svg") || eq_lit(&l, "webp") || eq_lit(&l, "pdf") || eq_lit(&l, "mp3") || eq_lit(&l, "mp4") || eq_lit(&l, "ogg") || eq_lit(&l, "wav") || eq_lit(&l, "webm")
        },
    }
}

/// The MIME type served for a lower-cased extension.
pub open spec fn mime_of_extension(e: Seq<char>) -> Seq<char> {
    if e == "png"@ {
        "image/png"@
    } else if e == "jpg"@ {
        "image/jpeg"@
    } else if e == "jpeg"@ {
        "image/jpeg"@
    } else if e == "gif"@ {
        "image/gif"@
    } else if e == "webp"@ {
        "image/webp"@
    } else if e == "svg"@ {
        "image/svg+xml"@
    } else if e == "css"@ {
        "text/css"@
    } else if e == "js"@ {
        "text/javascript"@
    } else if e == "ttf"@ {
        "font/ttf"@
    } else if e == "otf"@ {
        "font/otf"@
    } else if e == "woff"@ {
        "font/woff"@
    } else if e == "woff2"@ {
        "font/woff2"@
    } else {
        "application/octet-stream"@
    }
}

/// The MIME type of a file, by its extension.
pub open spec fn mime_of(path: Seq<char>) -> Seq<char> {
    mime_of_extension(
        match extension(path) {
            Some(e) => lower_seq(e),
            None => Seq::empty(),
        },
    )
}

/// The MIME type of a file, by its extension (`mime_of`).
pub fn mime_for_path(path: &str) -> (r: &'static str)
    ensures
        r@ == mime_of(path@),
{
    let p = chars_of(path);
    let l = match extension_chars(&p) {
        None => Vec::new(),
        Some(e) => ascii_lowercase(&chars_of(e.as_str())),
    };
    assert(extension(path@) is None ==> l@ =~= Seq::<char>::empty());
    if eq_lit(&l, "png") {
        "image/png"
    } else if eq_lit(&l, "jpg") {
        "image/jpeg"
    } else if eq_lit(&l, "jpeg") {
        "image/jpeg"
    } else if eq_lit(&l, "gif") {
        "image/gif"
    } else if eq_lit(&l, "webp") {
        "image/webp"
    } else if eq_lit(&l, "svg") {
        "image/svg+xml"
    } else if eq_lit(&l, "css") {
        "text/css"
    } else if eq_lit(&l, "js") {
        "text/javascript"
    } else if eq_lit(&l, "ttf") {
        "font/ttf"
    } else if eq_lit(&l, "otf") {
        "font/otf"
    } else if eq_lit(&l, "woff") {
        "font/woff"
    } else if eq_lit(&l, "woff2") {
        "font/woff2"
    } else {
        "application/octet-stream"
    }
}


/// `relative_url_path` over components: the normal components, percent
/// encoded, each preceded by `/` unless it is the very first component.
pub open spec fn url_path(cs: Seq<Comp>) -> Seq<char>
    decreases cs.len(),
{
    if cs.len() == 0 {
        Seq::empty()
    } else {
        let prev = url_path(cs.drop_last());
        match cs.last() {
            Comp::Normal(n) => prev + (if cs.len() > 1 {
                seq!['/']
            } else {
                Seq::empty()
            }) + percent_encoded(n),
            _ => prev,
        }
    }
}

/// The URL path of a relative file path (`url_path`).
pub fn relative_url_path(path: &str) -> (r: String)
    ensures
        r@ == url_path(components(path@)),
{
    let cs = path_components(&chars_of(path));
    let mut out: Vec<char> = Vec::new();
    let mut i: usize = 0;
    assert(comps_view(cs@).take(0) =~= Seq::<Comp>::empty());
    while i < cs.len()
        invariant
            i <= cs@.len(),
            out@ == url_path(comps_view(cs@).take(i as int)),
        decreases cs@.len() - i,
    {
        assert(comps_view(cs@).take(i + 1).drop_last() =~= comps_view(cs@).take(i as int));
        match &cs[i] {
            Component::Normal(n) => {
                if i > 0 {
                    out.push('/');
                }
                let ns = string_from(n);
                let bs = ns.as_str().as_bytes();
                push_encoded_bytes(&mut out, bs, false);
            },
            _ => {},
        }
        i += 1;
    }
    assert(comps_view(cs@).take(i as int) =~= comps_view(cs@));
    string_from(&out)
}

/// Law: where a packaged copy goes inside the asset folder is a non-empty
/// relative path of normal components only (no root, no `.` or `..`), so
/// copies never land outside that folder.
pub proof fn lemma_package_rel_inside(
    path: Seq<char>,
    orig: Seq<char>,
    canonical_base: Option<Seq<char>>,
    canonical_path: Option<Seq<char>>,
)
    ensures
        package_rel(path, orig, canonical_base, canonical_path).len() > 0,
        all_normal(components(package_rel(path, orig, canonical_base, canonical_path))),
{
    let written = normals_joined(components(orig));
    lemma_components_plain(orig);
    lemma_normals_joined(components(orig));
    let fallback = match file_name(path) {
        Some(n) => n,
        None => "resource"@,
    };
    match file_name(path) {
        Some(n) => {
            lemma_file_name_plain(path);
        },
        None => {
            reveal_strlit("resource");
            assert("resource"@ =~= seq!['r', 'e', 's', 'o', 'u', 'r', 'c', 'e']);
        },
    }
    lemma_single_component(fallback);
    assert(all_normal(seq![Comp::Normal(fallback)]));
    if !is_absolute(orig) && written.len() > 0 {
    } else {
        match (canonical_base, canonical_path) {
            (Some(b), Some(p)) => {
                if path_starts_with(p, b) {
                    let cs = components(p);
                    let k = components(b).len() as int;
                    lemma_components_plain(p);
                    lemma_plain_skip(cs, k);
                    lemma_normals_joined(cs.skip(k));
                }
            },
            _ => {},
        }
    }
}

/// Where a packaged copy goes inside the asset
/// folder: the reference as written without its non-normal components; else
/// the canonical path relative to the canonical base folder; else the file
/// name; else `resource`.
pub open spec fn package_rel(
    path: Seq<char>,
    orig: Seq<char>,
    canonical_base: Option<Seq<char>>,
    canonical_path: Option<Seq<char>>,
) -> Seq<char> {
    let written = normals_joined(components(orig));
    let fallback = match file_name(path) {
        Some(n) => n,
        None => "resource"@,
    };
    if !is_absolute(orig) && written.len() > 0 {
        written
    } else {
        match (canonical_base, canonical_path) {
            (Some(b), Some(p)) => match relative_normals(p, b) {
                Some(r) => if r.len() > 0 {
                    r
                } else {
                    fallback
                },
                None => fallback,
            },
            _ => fallback,
        }
    }
}

/// The normal components of `path` after those of `base` (exec).
fn relative_normals_exec(path: &str, base: &str) -> (r: Option<Vec<char>>)
    ensures
        match r {
            Some(v) => relative_normals(path@, base@) == Some(v@),
            None => relative_normals(path@, base@) is None,
        },
{
    if !starts_with_path(path, base) {
        return None;
    }
    let p = path_components(&chars_of(path));
    let b = path_components(&chars_of(base));
    let mut out: Vec<char> = Vec::new();
    let start = b.len();
    let mut i = start;
    let ghost rest = comps_view(p@).skip(start as int);
    assert(rest.take(0) =~= Seq::<Comp>::empty());
    while i < p.len()
        invariant
            start <= i <= p@.len(),
            rest == comps_view(p@).skip(start as int),
            out@ == normals_joined(rest.take(i - start)),
        decreases p@.len() - i,
    {
        assert(rest.take(i - start + 1).drop_last() =~= rest.take(i - start));
        assert(rest.take(i - start + 1).last() == comps_view(p@)[i as int]);
        match &p[i] {
            Component::Normal(n) => {
                if out.len() > 0 {
                    out.push('/');
                }
                extend(&mut out, n);
            },
            _ => {},
        }
        i += 1;
    }
    assert(rest.take(i - start) =~= rest);
    Some(out)
}

/// `package_relative_path`; the canonical forms are read by the caller.
pub fn package_relative_path(
    path: &str,
    original_path_part: &str,
    canonical_base: Option<&str>,
    canonical_path: Option<&str>,
) -> (r: String)
    ensures
        r@ == package_rel(
            path@,
            original_path_part@,
            match canonical_base {
                Some(b) => Some(b@),
                None => None,
            },
            match canonical_path {
                Some(p) => Some(p@),
                None => None,
            },
        ),
{
    let o = chars_of(original_path_part);
    let absolute = o.len() > 0 && o[0] == '/';
    if !absolute {
        let sanitized = sanitize_relative_path(original_path_part);
        if chars_of(sanitized.as_str()).len() > 0 {
            return sanitized;
        }
    }
    if let (Some(b), Some(p)) = (canonical_base, canonical_path) {
        if let Some(rel) = relative_normals_exec(p, b) {
            if rel.len() > 0 {
                return string_from(&rel);
            }
        }
    }
    let pc = chars_of(path);
    match file_name_range(&pc) {
        Some((a, e)) => string_from(&slice_to_vec(&pc, a, e)),
        None => string_from(&chars_of("resource")),
    }
}

/// The packaged form of a reference, with the copy it needs: media files
/// that exist become `prefix/<package path>`; other local references become
/// `file://` URLs; the suffix is kept.
pub open spec fn packaged_value(
    v: Seq<char>,
    base: Seq<char>,
    prefix: Seq<char>,
    facts: Seq<PathFacts>,
    canonical_base: Option<Seq<char>>,
) -> Option<(Seq<char>, Option<(Seq<char>, Seq<char>)>)> {
    match local_parts(v, base) {
        None => None,
        Some((path, suffix, orig)) => {
            let (is_file, is_dir, canonical) = facts_of(facts, path);
            if !is_file || !should_package(path) {
                Some((file_url(path, is_dir) + suffix, None))
            } else {
                let pkg = package_rel(path, orig, canonical_base, canonical);
                Some(
                    (
                        prefix + seq!['/'] + url_path(components(pkg)) + suffix,
                        Some((path, pkg)),
                    ),
                )
            }
        },
    }
}

/// The copies (source path, path inside the asset folder) that the packaged
/// references after `marker` from position `i` on need, in order.
pub open spec fn copies_from(
    html: Seq<char>,
    marker: Seq<char>,
    i: int,
    g: spec_fn(Seq<char>) -> Option<(Seq<char>, Seq<char>)>,
) -> Seq<(Seq<char>, Seq<char>)>
    decreases html.len() - i,
{
    if i < 0 || i > html.len() || marker.len() == 0 {
        Seq::empty()
    } else {
        match find_from(html, marker, i) {
            None => Seq::empty(),
            Some(s) => {
                let vs = s + marker.len();
                match find_from(html, seq!['"'], vs) {
                    None => Seq::empty(),
                    Some(e) => if i <= s && vs <= e && e <= html.len() {
                        (match g(html.subrange(vs, e)) {
                            Some(c) => seq![c],
                            None => Seq::empty(),
                        }) + copies_from(html, marker, e, g)
                    } else {
                        Seq::empty()
                    },
                }
            },
        }
    }
}

pub open spec fn packaged_text_fn(
    base: Seq<char>,
    prefix: Seq<char>,
    facts: Seq<PathFacts>,
    cb: Option<Seq<char>>,
) -> spec_fn(Seq<char>) -> Option<Seq<char>> {
    |v: Seq<char>|
        match packaged_value(v, base, prefix, facts, cb) {
            Some((t, _)) => Some(t),
            None => None,
        }
}

pub open spec fn packaged_copy_fn(
    base: Seq<char>,
    prefix: Seq<char>,
    facts: Seq<PathFacts>,
    cb: Option<Seq<char>>,
) -> spec_fn(Seq<char>) -> Option<(Seq<char>, Seq<char>)> {
    |v: Seq<char>|
        match packaged_value(v, base, prefix, facts, cb) {
            Some((_, c)) => c,
            None => None,
        }
}

fn packaged_value_exec(
    value: &[char],
    base_dir: &str,
    prefix: &str,
    facts: &[PathFacts],
    canonical_base: Option<&str>,
) -> (r: Option<(Vec<char>, Option<(String, String)>)>)
    ensures
        match r {
            Some((t, c)) => packaged_value(
                value@,
                base_dir@,
                prefix@,
                facts@,
                match canonical_base {
                    Some(b) => Some(b@),
                    None => None,
                },
            ) == Some(
                (
                    t@,
                    match c {
                        Some((a, b)) => Some((a@, b@)),
                        None => None,
                    },
                ),
            ),
            None => packaged_value(
                value@,
                base_dir@,
                prefix@,
                facts@,
                match canonical_base {
                    Some(b) => Some(b@),
                    None => None,
                },
            ) is None,
        },
{
    match local_resource_parts(value, base_dir) {
        None => None,
        Some((path, suffix, orig)) => {
            let p = chars_of(path.as_str());
            let (is_file, is_dir, canonical) = lookup_facts(facts, &p);
            let sv = chars_of(suffix.as_str());
            if !is_file || !should_package_resource(path.as_str()) {
                let mut out: Vec<char> = Vec::new();
                push_file_url(&mut out, &p, is_dir);
                extend(&mut out, &sv);
                assert(out@ =~= file_url(path@, is_dir) + suffix@);
                return Some((out, None));
            }
            let cp: Option<&str> = match &canonical {
                Some(c) => Some(c.as_str()),
                None => None,
            };
            let pkg = package_relative_path(path.as_str(), orig.as_str(), canonical_base, cp);
            let mut out = chars_of(prefix);
            out.push('/');
            let url = relative_url_path(pkg.as_str());
            extend(&mut out, &chars_of(url.as_str()));
            extend(&mut out, &sv);
            assert(out@ =~= prefix@ + seq!['/'] + url_path(components(pkg@)) + suffix@);
            Some((out, Some((path, pkg))))
        },
    }
}

/// The references after `marker` in
/// their packaged form, and the copies they need.
pub fn rewrite_packaged_attribute_urls(
    html: &[char],
    marker: &[char],
    base_dir: &str,
    prefix: &str,
    facts: &[PathFacts],
    canonical_base: Option<&str>,
) -> (r: (Vec<char>, Vec<(String, String)>))
    requires
        marker@.len() > 0,
    ensures
        ({
            let cb = match canonical_base {
                Some(b) => Some(b@),
                None => None,
            };
            &&& r.0@ == rewrite_from(
                html@,
                marker@,
                0,
                packaged_text_fn(base_dir@, prefix@, facts@, cb),
            )
            &&& r.1@.map_values(|c: (String, String)| (c.0@, c.1@)) == copies_from(
                html@,
                marker@,
                0,
                packaged_copy_fn(base_dir@, prefix@, facts@, cb),
            )
        }),
{
    let ghost cb = match canonical_base {
        Some(b) => Some(b@),
        None => None,
    };
    let ghost f = packaged_text_fn(base_dir@, prefix@, facts@, cb);
    let ghost g = packaged_copy_fn(base_dir@, prefix@, facts@, cb);
    let mut out: Vec<char> = Vec::new();
    let mut jobs: Vec<(String, String)> = Vec::new();
    let mut i: usize = 0;
    while i <= html.len()
        invariant
            i <= html@.len(),
            marker@.len() > 0,
            cb == match canonical_base {
                Some(b) => Some(b@),
                None => None,
            },
            f == packaged_text_fn(base_dir@, prefix@, facts@, cb),
            g == packaged_copy_fn(base_dir@, prefix@, facts@, cb),
            out@ + rewrite_from(html@, marker@, i as int, f) == rewrite_from(html@, marker@, 0, f),
            jobs@.map_values(|c: (String, String)| (c.0@, c.1@)) + copies_from(
                html@,
                marker@,
                i as int,
                g,
            ) == copies_from(html@, marker@, 0, g),
        decreases html@.len() - i,
    {
        proof {
            lemma_find_from(html@, marker@, i as int);
        }
        let start = match find_from_exec(html, marker, i) {
            None => {
                extend_range(&mut out, html, i, html.len());
                assert(jobs@.map_values(|c: (String, String)| (c.0@, c.1@)) =~= copies_from(
                    html@,
                    marker@,
                    0,
                    g,
                ));
                return (out, jobs);
            },
            Some(s) => s,
        };
        assert(matches_at(html@, start as int, marker@));
        let n = html.len();
        assert(start + marker.len() <= n);
        let vs = start + marker.len();
        proof {
            lemma_find_from(html@, seq!['"'], vs as int);
        }
        let end = match find_char_from(html, '"', vs) {
            None => {
                extend_range(&mut out, html, i, html.len());
                assert(jobs@.map_values(|c: (String, String)| (c.0@, c.1@)) =~= copies_from(
                    html@,
                    marker@,
                    0,
                    g,
                ));
                return (out, jobs);
            },
            Some(e) => e,
        };
        assert(matches_at(html@, end as int, seq!['"']));
        let ghost before = out@;
        let ghost jbefore = jobs@.map_values(|c: (String, String)| (c.0@, c.1@));
        extend_range(&mut out, html, i, vs);
        let value = slice_to_vec(html, vs, end);
        match packaged_value_exec(&value, base_dir, prefix, facts, canonical_base) {
            Some((t, c)) => {
                extend(&mut out, &t);
                match c {
                    Some(job) => {
                        jobs.push(job);
                    },
                    None => {},
                }
            },
            None => extend(&mut out, &value),
        }
        assert(before + rewrite_from(html@, marker@, i as int, f) =~= out@ + rewrite_from(
            html@,
            marker@,
            end as int,
            f,
        ));
        assert(jbefore + copies_from(html@, marker@, i as int, g) =~= jobs@.map_values(
            |c: (String, String)| (c.0@, c.1@),
        ) + copies_from(html@, marker@, end as int, g));
        i = end;
    }
    (out, jobs)
}

/// The local paths that the values of the attributes starting with `marker`
/// resolve to against `base`, from position `i` on, in order (values that
/// are URLs with a scheme, anchors or empty are left out).
pub open spec fn attribute_paths_from(html: Seq<char>, marker: Seq<char>, i: int, base: Seq<char>) -> Seq<
    Seq<char>,
>
    decreases html.len() - i,
{
    if i < 0 || i > html.len() || marker.len() == 0 {
        Seq::empty()
    } else {
        match find_from(html, marker, i) {
            None => Seq::empty(),
            Some(s) => {
                let vs = s + marker.len();
                match find_from(html, seq!['"'], vs) {
                    None => Seq::empty(),
                    Some(e) => if i <= s && vs <= e && e <= html.len() {
                        (match local_parts(html.subrange(vs, e), base) {
                            Some((p, _, _)) => seq![p],
                            None => Seq::empty(),
                        }) + attribute_paths_from(html, marker, e, base)
                    } else {
                        Seq::empty()
                    },
                }
            },
        }
    }
}

fn push_attribute_paths(out: &mut Vec<String>, html: &[char], marker: &[char], base_dir: &str)
    requires
        marker@.len() > 0,
    ensures
        strings_view(final(out)@) == strings_view(old(out)@) + attribute_paths_from(
            html@,
            marker@,
            0,
            base_dir@,
        ),
{
    let mut i: usize = 0;
    assert(strings_view(out@) + attribute_paths_from(html@, marker@, 0, base_dir@) =~= strings_view(
        old(out)@,
    ) + attribute_paths_from(html@, marker@, 0, base_dir@));
    while i <= html.len()
        invariant
            i <= html@.len(),
            marker@.len() > 0,
            strings_view(out@) + attribute_paths_from(html@, marker@, i as int, base_dir@)
                == strings_view(old(out)@) + attribute_paths_from(html@, marker@, 0, base_dir@),
        decreases html@.len() - i,
    {
        proof {
            lemma_find_from(html@, marker@, i as int);
        }
        let start = match find_from_exec(html, marker, i) {
            None => {
                assert(strings_view(out@) =~= strings_view(out@) + attribute_paths_from(
                    html@,
                    marker@,
                    i as int,
                    base_dir@,
                ));
                return ;
            },
            Some(s) => s,
        };
        assert(matches_at(html@, start as int, marker@));
        let n = html.len();
        assert(start + marker.len() <= n);
        let vs = start + marker.len();
        proof {
            lemma_find_from(html@, seq!['"'], vs as int);
        }
        let end = match find_char_from(html, '"', vs) {
            None => {
                assert(strings_view(out@) =~= strings_view(out@) + attribute_paths_from(
                    html@,
                    marker@,
                    i as int,
                    base_dir@,
                ));
                return ;
            },
            Some(e) => e,
        };
        let ghost before = strings_view(out@);
        let value = slice_to_vec(html, vs, end);
        match local_resource_parts(&value, base_dir) {
            Some((p, _, _)) => {
                out.push(p);
            },
            None => {},
        }
        assert(before + attribute_paths_from(html@, marker@, i as int, base_dir@) =~= strings_view(
            out@,
        ) + attribute_paths_from(html@, marker@, end as int, base_dir@));
        i = end;
    }
}

/// The local paths a page refers to through `src` and then `href`
/// attributes, resolved against `base`.
pub open spec fn referenced_paths_of(html: Seq<char>, base: Seq<char>) -> Seq<Seq<char>> {
    attribute_paths_from(html, "src=\""@, 0, base) + attribute_paths_from(html, "href=\""@, 0, base)
}

/// The local paths a page refers to, for the caller to look up on disk
/// before exporting (whether each is a file or a folder, and its canonical
/// form).
pub fn referenced_paths(html: &str, base_dir: &str) -> (r: Vec<String>)
    ensures
        strings_view(r@) == referenced_paths_of(html@, base_dir@),
{
    let h = chars_of(html);
    let src = chars_of("src=\"");
    let href = chars_of("href=\"");
    proof {
        reveal_strlit("src=\"");
        reveal_strlit("href=\"");
    }
    let mut out: Vec<String> = Vec::new();
    push_attribute_paths(&mut out, &h, &src, base_dir);
    push_attribute_paths(&mut out, &h, &href, base_dir);
    assert(strings_view(out@) =~= referenced_paths_of(html@, base_dir@));
    out
}

} // verus!
