//! What is promised of the paths that are forwarded.

use crate::paths;
use vstd::prelude::*;

verus! {

broadcast use vstd::string::group_string_axioms;

// ---------------------------------------------------------------------------
// Bytes
// ---------------------------------------------------------------------------

/// Text is encoded part by part.
proof fn lemma_encode_join(a: Seq<char>, b: Seq<char>)
    ensures
        vstd::utf8::encode_utf8(a + b) == vstd::utf8::encode_utf8(a) + vstd::utf8::encode_utf8(b),
    decreases a.len(),
{
    if a.len() == 0 {
        assert(a + b =~= b);
        assert(vstd::utf8::encode_utf8(a) + vstd::utf8::encode_utf8(b)
            =~= vstd::utf8::encode_utf8(b));
    } else {
        lemma_encode_join(a.drop_first(), b);
        assert((a + b).drop_first() =~= a.drop_first() + b);
        assert(vstd::utf8::encode_utf8(a + b) =~= vstd::utf8::encode_utf8(a)
            + vstd::utf8::encode_utf8(b));
    }
}

/// A character is an ASCII one just where its first byte is, and then is that
/// byte alone; no byte of another character is an ASCII one.
proof fn lemma_encode_char(c: char)
    ensures
        c as u32 <= 0x7f ==> vstd::utf8::encode_scalar(c as u32) == seq![c as u8],
        c as u32 > 0x7f ==> forall|i: int|
            0 <= i < vstd::utf8::encode_scalar(c as u32).len() ==> #[trigger]
            vstd::utf8::encode_scalar(c as u32)[i] >= 0x80,
{
    let v = c as u32;
    vstd::utf8::char_is_scalar(c);
    assert(v <= 0x7f ==> (v & 0x7f) as u8 == v as u8) by (bit_vector);
    assert(forall|x: u8| #[trigger] (0xc0u8 | x) >= 0x80) by (bit_vector);
    assert(forall|x: u8| #[trigger] (0xe0u8 | x) >= 0x80) by (bit_vector);
    assert(forall|x: u8| #[trigger] (0xf0u8 | x) >= 0x80) by (bit_vector);
    assert(forall|x: u8| #[trigger] (0x80u8 | x) >= 0x80) by (bit_vector);
    if v <= 0x7f {
        assert(vstd::utf8::encode_scalar(v) =~= seq![c as u8]);
    }
}

/// Text without an ASCII character has no such byte.
proof fn lemma_encode_lacks(s: Seq<char>, c: char)
    requires
        c as u32 <= 0x7f,
        !s.contains(c),
    ensures
        !vstd::utf8::encode_utf8(s).contains(c as u8),
    decreases s.len(),
{
    if s.len() > 0 {
        let rest = s.drop_first();
        assert(!rest.contains(c)) by {
            if rest.contains(c) {
                let i = rest.index_of(c);
                assert(s[i + 1] == c);
            }
        }
        lemma_encode_lacks(rest, c);
        lemma_encode_char(s[0]);
        assert(s[0] != c) by {
            assert(s.contains(s[0]));
        }
        let first = vstd::utf8::encode_scalar(s[0] as u32);
        let bytes = vstd::utf8::encode_utf8(s);
        if bytes.contains(c as u8) {
            let i = bytes.index_of(c as u8);
            if i < first.len() {
                assert(bytes[i] == first[i]);
                assert(s[0] as u32 <= 0x7f);
                assert(s[0] as u8 == c as u8);
                let v = s[0] as u32;
                let w = c as u32;
                assert(v <= 0x7f && w <= 0x7f && v as u8 == w as u8 ==> v == w) by (bit_vector);
                vstd::utf8::char_u32_cast(s[0], v);
                vstd::utf8::char_u32_cast(c, w);
            } else {
                assert(bytes[i] == vstd::utf8::encode_utf8(rest)[i - first.len()]);
            }
        }
    }
}

/// Escapes are decoded part by part, where the second part starts with no
/// hexadecimal digit.
proof fn lemma_percent_join(x: Seq<u8>, y: Seq<u8>)
    requires
        y.len() > 0 ==> !paths::is_hex(y[0]),
    ensures
        paths::percent_bytes(x + y) == paths::percent_bytes(x) + paths::percent_bytes(y),
    decreases x.len(),
{
    let whole = paths::percent_bytes(x) + paths::percent_bytes(y);
    if x.len() == 0 {
        assert(x + y =~= y);
        assert(whole =~= paths::percent_bytes(y));
    } else if paths::starts_escape(x) {
        lemma_percent_join(x.skip(3), y);
        assert((x + y).skip(3) =~= x.skip(3) + y);
        assert(paths::percent_bytes(x + y) =~= whole);
    } else {
        lemma_percent_join(x.skip(1), y);
        assert((x + y).skip(1) =~= x.skip(1) + y);
        assert(!paths::starts_escape(x + y));
        assert(paths::percent_bytes(x + y) =~= whole);
    }
}

/// Bytes without a percent sign stand for themselves.
proof fn lemma_percent_plain(x: Seq<u8>)
    requires
        !x.contains(0x25),
    ensures
        paths::percent_bytes(x) == x,
    decreases x.len(),
{
    if x.len() > 0 {
        assert(x.contains(x[0]));
        assert forall|i: int| 0 <= i < x.skip(1).len() implies #[trigger] x.skip(1)[i] != 0x25 by {
            assert(x.contains(x[i + 1]));
        }
        lemma_percent_plain(x.skip(1));
        assert(paths::percent_bytes(x) =~= x);
    }
}

/// Bytes become text from slash to slash.
proof fn lemma_lossy_join(x: Seq<u8>, y: Seq<u8>)
    ensures
        paths::lossy_text(x.push(0x2f) + y) == paths::lossy_text(x).push('/') + paths::lossy_text(
            y,
        ),
    decreases x.len(),
{
    let z = x.push(0x2f) + y;
    let whole = paths::lossy_text(x).push('/') + paths::lossy_text(y);
    assert(z[x.len() as int] == 0x2f);
    x.index_of_first_ensures(0x2f);
    z.index_of_first_ensures(0x2f);
    let i = z.index_of_first(0x2f)->Some_0;
    assert(i <= x.len());
    assert forall|j: int| 0 <= j < x.len() implies z[j] == x[j] by {}
    match x.index_of_first(0x2f) {
        Some(k) => {
            assert(z[k] == 0x2f);
            assert(i == k);
            assert(z.take(k) =~= x.take(k));
            assert(z.skip(k + 1) =~= x.skip(k + 1).push(0x2f) + y);
            lemma_lossy_join(x.skip(k + 1), y);
            assert(paths::lossy_text(z) =~= whole);
        },
        None => {
            assert(i == x.len()) by {
                if i < x.len() {
                    assert(x.contains(x[i]));
                }
            }
            assert(z.take(i) =~= x);
            assert(z.skip(i + 1) =~= y);
            assert(paths::lossy_text(z) =~= whole);
        },
    }
}

/// Bytes that are UTF-8 become the text that they encode.
pub proof fn law_valid_bytes_decode(bytes: Seq<u8>)
    requires
        vstd::utf8::valid_utf8(bytes),
    ensures
        paths::lossy_piece(bytes) == vstd::utf8::decode_utf8(bytes),
    decreases bytes.len(),
{
    if bytes.len() > 0 {
        law_valid_bytes_decode(vstd::utf8::pop_first_scalar(bytes));
    }
}

/// Two bytes hold a number of eleven bits, and three bytes one of sixteen.
proof fn lemma_codepoints(bytes: Seq<u8>)
    ensures
        vstd::utf8::codepoint_width_2(bytes[0], bytes[1]) <= 0x7ff,
        vstd::utf8::codepoint_width_3(bytes[0], bytes[1], bytes[2]) <= 0xffff,
{
    let a = bytes[0];
    let b = bytes[1];
    let c = bytes[2];
    assert(vstd::utf8::codepoint_width_2(a, b) <= 0x7ff) by (bit_vector);
    assert(vstd::utf8::codepoint_width_3(a, b, c) <= 0xffff) by (bit_vector);
}

/// A first character that is an ASCII one is its first byte.
proof fn lemma_first_ascii(bytes: Seq<u8>, c: char)
    requires
        bytes.len() > 0,
        vstd::utf8::valid_first_scalar(bytes),
        c as u32 <= 0x7f,
    ensures
        (vstd::utf8::decode_first_scalar(bytes) as char == c) == (bytes[0] == c as u8),
        bytes[0] == c as u8 ==> vstd::utf8::length_of_first_scalar(bytes) == 1,
{
    let v = vstd::utf8::decode_first_scalar(bytes);
    let b = bytes[0];
    let w = c as u32;
    assert(b <= 0x7f ==> (b & 0x7f) as u32 == b as u32) by (bit_vector);
    assert(w <= 0x7f ==> (w as u8) as u32 == w) by (bit_vector);
    lemma_codepoints(bytes);
    assert((v as char) as u32 == v);
    vstd::utf8::char_u32_cast(c, w);
}

/// Bytes without a slash become text without one.
proof fn lemma_piece_lacks_slash(bytes: Seq<u8>)
    requires
        !bytes.contains(0x2f),
    ensures
        !paths::lossy_piece(bytes).contains('/'),
        bytes.len() > 0 ==> paths::lossy_piece(bytes).len() > 0,
    decreases bytes.len(),
{
    if bytes.len() > 0 {
        let piece = paths::lossy_piece(bytes);
        let n = if vstd::utf8::valid_first_scalar(bytes) {
            vstd::utf8::length_of_first_scalar(bytes)
        } else {
            paths::replaced_len(bytes)
        };
        let rest = bytes.skip(n);
        assert(rest =~= bytes.subrange(n, bytes.len() as int));
        assert forall|i: int| 0 <= i < rest.len() implies #[trigger] rest[i] != 0x2f by {
            assert(bytes.contains(bytes[i + n]));
        }
        lemma_piece_lacks_slash(rest);
        assert(bytes.contains(bytes[0]));
        if vstd::utf8::valid_first_scalar(bytes) {
            lemma_first_ascii(bytes, '/');
        }
        assert(piece =~= seq![piece[0]] + paths::lossy_piece(rest));
        if piece.contains('/') {
            let i = piece.index_of('/');
            assert(i > 0);
            assert(paths::lossy_piece(rest)[i - 1] == '/');
        }
    }
}

/// Text that starts with a dot comes from bytes that start with one.
proof fn lemma_piece_first_dot(bytes: Seq<u8>)
    requires
        bytes.len() > 0,
    ensures
        (paths::lossy_piece(bytes)[0] == '.') == (bytes[0] == 0x2e),
        bytes[0] == 0x2e ==> paths::lossy_piece(bytes) == seq!['.'] + paths::lossy_piece(
            bytes.skip(1),
        ),
{
    if vstd::utf8::valid_first_scalar(bytes) {
        lemma_first_ascii(bytes, '.');
        if bytes[0] == 0x2e {
            assert(vstd::utf8::pop_first_scalar(bytes) =~= bytes.skip(1));
        }
    } else {
        assert(bytes[0] != 0x2e);
    }
}

/// Text without a slash has a dot segment just where it is one or two dots.
proof fn lemma_dots_alone(s: Seq<char>)
    requires
        !s.contains('/'),
    ensures
        paths::has_dots(s) == (s == seq!['.'] || s == seq!['.', '.']),
{
    assert forall|i: int| 0 <= i < s.len() implies #[trigger] s[i] != '/' by {
        assert(s.contains(s[i]));
    }
    if paths::has_dots(s) {
        let i = choose|i: int| paths::dot_segment_at(s, i);
        assert(i == 0);
        if s.len() == 1 {
            assert(s =~= seq!['.']);
        } else {
            assert(s =~= seq!['.', '.']);
        }
    }
    if s == seq!['.'] || s == seq!['.', '.'] {
        assert(paths::dot_segment_at(s, 0));
    }
}

/// The bytes of a segment are one or two dots just where its text is.
proof fn lemma_piece_dots(bytes: Seq<u8>)
    requires
        !bytes.contains(0x2f),
    ensures
        paths::has_dots(paths::lossy_piece(bytes)) == (bytes == seq![0x2eu8] || bytes == seq![
            0x2eu8,
            0x2eu8,
        ]),
        paths::has_dots(paths::byte_chars(bytes)) == (bytes == seq![0x2eu8] || bytes == seq![
            0x2eu8,
            0x2eu8,
        ]),
{
    let piece = paths::lossy_piece(bytes);
    let chars = paths::byte_chars(bytes);
    assert forall|i: int| 0 <= i < bytes.len() implies (#[trigger] chars[i] == '.') == (bytes[i]
        == 0x2e) && chars[i] != '/' by {
        assert(bytes.contains(bytes[i]));
        lemma_byte_char(bytes[i]);
    }
    assert(!chars.contains('/'));
    lemma_piece_lacks_slash(bytes);
    lemma_dots_alone(piece);
    lemma_dots_alone(chars);
    assert((chars == seq!['.']) == (bytes == seq![0x2eu8])) by {
        if chars == seq!['.'] {
            assert(chars[0] == '.');
            assert(bytes =~= seq![0x2eu8]);
        }
        if bytes == seq![0x2eu8] {
            assert(chars =~= seq!['.']);
        }
    }
    assert((chars == seq!['.', '.']) == (bytes == seq![0x2eu8, 0x2eu8])) by {
        if chars == seq!['.', '.'] {
            assert(chars[0] == '.' && chars[1] == '.');
            assert(bytes =~= seq![0x2eu8, 0x2eu8]);
        }
        if bytes == seq![0x2eu8, 0x2eu8] {
            assert(chars =~= seq!['.', '.']);
        }
    }
    if bytes.len() > 0 {
        let rest = bytes.skip(1);
        let none = Seq::<u8>::empty();
        assert(paths::lossy_piece(none) =~= Seq::<char>::empty());
        lemma_piece_first_dot(bytes);
        assert(!rest.contains(0x2f)) by {
            assert forall|i: int| 0 <= i < rest.len() implies #[trigger] rest[i] != 0x2f by {
                assert(bytes.contains(bytes[i + 1]));
            }
        }
        lemma_piece_lacks_slash(rest);
        if rest.len() == 0 {
            assert(rest =~= none);
            if bytes[0] == 0x2e {
                assert(bytes =~= seq![0x2eu8]);
                assert(piece =~= seq!['.']);
            }
        } else {
            let last = rest.skip(1);
            lemma_piece_first_dot(rest);
            assert(!last.contains(0x2f)) by {
                assert forall|i: int| 0 <= i < last.len() implies #[trigger] last[i] != 0x2f by {
                    assert(bytes.contains(bytes[i + 2]));
                }
            }
            lemma_piece_lacks_slash(last);
            if bytes[0] == 0x2e {
                assert(piece[1] == paths::lossy_piece(rest)[0]);
                assert(piece.len() >= 2);
                if rest[0] == 0x2e {
                    assert(piece.len() == 2 + paths::lossy_piece(last).len());
                    if last.len() == 0 {
                        assert(last =~= none);
                        assert(bytes =~= seq![0x2eu8, 0x2eu8]);
                        assert(piece =~= seq!['.', '.']);
                    }
                }
            }
        }
    } else {
        assert(piece.len() == 0);
    }
}

/// A byte is that of a dot or a slash just where its character is.
proof fn lemma_byte_char(b: u8)
    ensures
        (b as char == '.') == (b == 0x2e),
        (b as char == '/') == (b == 0x2f),
{
    assert((b as char) as u32 == b as u32);
}

/// The bytes of a path, with its escapes decoded, have a dot segment just
/// where its text has: what is not UTF-8 is none and makes none.
proof fn lemma_bytes_decide(x: Seq<u8>)
    ensures
        paths::has_dots(paths::lossy_text(x)) == paths::has_dots(paths::byte_chars(x)),
    decreases x.len(),
{
    x.index_of_first_ensures(0x2f);
    match x.index_of_first(0x2f) {
        Some(i) => {
            let front = x.take(i);
            let back = x.skip(i + 1);
            assert(!front.contains(0x2f));
            lemma_piece_dots(front);
            lemma_bytes_decide(back);
            law_segments_join(paths::lossy_piece(front), paths::lossy_text(back));
            law_segments_join(paths::byte_chars(front), paths::byte_chars(back));
            lemma_byte_char(0x2f);
            assert(paths::byte_chars(x) =~= paths::byte_chars(front).push('/')
                + paths::byte_chars(back));
        },
        None => {
            lemma_piece_dots(x);
        },
    }
}

/// Whether a target is admitted is seen from its bytes: it is refused just
/// where its path, with the escapes decoded, has the bytes of one or two dots
/// between slashes. Bytes that are not UTF-8 never count as dots.
pub proof fn law_bytes_decide(target: Seq<char>)
    ensures
        paths::is_admitted(target) == !paths::has_dots(
            paths::byte_chars(
                paths::percent_bytes(vstd::utf8::encode_utf8(paths::path_part(target))),
            ),
        ),
{
    lemma_bytes_decide(paths::percent_bytes(vstd::utf8::encode_utf8(paths::path_part(target))));
}

/// A segment that is not UTF-8 has a replacement character in its text, and is
/// no dot segment.
pub proof fn law_invalid_segment_is_no_dots(bytes: Seq<u8>)
    requires
        !vstd::utf8::valid_utf8(bytes),
    ensures
        paths::lossy_piece(bytes).contains('\u{fffd}'),
        !bytes.contains(0x2f) ==> !paths::has_dots(paths::lossy_piece(bytes)),
    decreases bytes.len(),
{
    let piece = paths::lossy_piece(bytes);
    if vstd::utf8::valid_first_scalar(bytes) {
        let rest = vstd::utf8::pop_first_scalar(bytes);
        law_invalid_segment_is_no_dots(rest);
        let i = paths::lossy_piece(rest).index_of('\u{fffd}');
        assert(piece[i + 1] == '\u{fffd}');
    } else {
        assert(bytes.len() > 0);
        assert(piece[0] == '\u{fffd}');
    }
    if !bytes.contains(0x2f) {
        lemma_piece_lacks_slash(bytes);
        lemma_dots_alone(piece);
    }
}

/// Encoded text is decoded to itself.
proof fn lemma_lossy_text(s: Seq<char>)
    ensures
        paths::lossy_text(vstd::utf8::encode_utf8(s)) == s,
    decreases s.len(),
{
    s.index_of_first_ensures('/');
    let bytes = vstd::utf8::encode_utf8(s);
    match s.index_of_first('/') {
        Some(i) => {
            let front = s.take(i);
            let back = s.skip(i + 1);
            assert(!front.contains('/'));
            assert(s =~= front.push('/') + back);
            lemma_slash_bytes(front, back);
            lemma_lossy_join(vstd::utf8::encode_utf8(front), vstd::utf8::encode_utf8(back));
            lemma_lossy_text(front);
            lemma_lossy_text(back);
        },
        None => {
            lemma_encode_lacks(s, '/');
            bytes.index_of_first_ensures(0x2f);
            vstd::utf8::encode_utf8_valid_utf8(s);
            vstd::utf8::encode_utf8_decode_utf8(s);
            law_valid_bytes_decode(bytes);
        },
    }
}

/// A slash is one byte.
proof fn lemma_slash_bytes(a: Seq<char>, b: Seq<char>)
    ensures
        vstd::utf8::encode_utf8(a.push('/') + b) == vstd::utf8::encode_utf8(a).push(0x2f)
            + vstd::utf8::encode_utf8(b),
{
    lemma_encode_join(a.push('/'), b);
    lemma_encode_join(a, seq!['/']);
    assert(a.push('/') =~= a + seq!['/']);
    lemma_one_byte('/');
    assert(vstd::utf8::encode_utf8(a) + seq![0x2fu8] =~= vstd::utf8::encode_utf8(a).push(0x2f));
}

/// An ASCII character is one byte.
proof fn lemma_one_byte(c: char)
    requires
        c as u32 <= 0x7f,
    ensures
        vstd::utf8::encode_utf8(seq![c]) == seq![c as u8],
{
    lemma_encode_char(c);
    assert(seq![c].drop_first() =~= Seq::<char>::empty());
    assert(vstd::utf8::encode_utf8(Seq::<char>::empty()) =~= Seq::<u8>::empty());
    assert(vstd::utf8::encode_utf8(seq![c]) =~= seq![c as u8]);
}

// ---------------------------------------------------------------------------
// Dots
// ---------------------------------------------------------------------------

/// The segments of two paths with a slash between them are those of both.
pub proof fn law_segments_join(a: Seq<char>, b: Seq<char>)
    ensures
        paths::has_dots(a.push('/') + b) == (paths::has_dots(a) || paths::has_dots(b)),
{
    let z = a.push('/') + b;
    let n = a.len() as int;
    assert(z[n] == '/');
    assert forall|i: int| 0 <= i < n implies z[i] == a[i] by {}
    assert forall|i: int| 0 <= i < b.len() implies z[n + 1 + i] == b[i] by {}
    if paths::has_dots(a) {
        let i = choose|i: int| paths::dot_segment_at(a, i);
        assert(paths::dot_segment_at(z, i));
    }
    if paths::has_dots(b) {
        let i = choose|i: int| paths::dot_segment_at(b, i);
        assert(paths::dot_segment_at(z, n + 1 + i));
    }
    if paths::has_dots(z) {
        let i = choose|i: int| paths::dot_segment_at(z, i);
        if i < n {
            assert(paths::dot_segment_at(a, i));
        } else {
            assert(i > n);
            assert(paths::dot_segment_at(b, i - n - 1));
        }
    }
}

/// The ways to write a slash.
pub open spec fn is_slash(s: Seq<char>) -> bool {
    s == seq!['/'] || s == seq!['%', '2', 'f'] || s == seq!['%', '2', 'F']
}

/// The ways to write a dot.
pub open spec fn is_dot(s: Seq<char>) -> bool {
    s == seq!['.'] || s == seq!['%', '2', 'e'] || s == seq!['%', '2', 'E']
}

/// The bytes of a percent sign and two characters.
proof fn lemma_escape_bytes(a: char, b: char)
    requires
        a as u32 <= 0x7f,
        b as u32 <= 0x7f,
    ensures
        vstd::utf8::encode_utf8(seq!['%', a, b]) == seq![0x25u8, a as u8, b as u8],
{
    assert(seq!['%', a, b] =~= seq!['%'] + (seq![a] + seq![b]));
    lemma_encode_join(seq!['%'], seq![a] + seq![b]);
    lemma_encode_join(seq![a], seq![b]);
    lemma_one_byte('%');
    lemma_one_byte(a);
    lemma_one_byte(b);
    assert(seq![0x25u8] + (seq![a as u8] + seq![b as u8]) =~= seq![0x25u8, a as u8, b as u8]);
}

/// An escape at the start of some bytes.
proof fn lemma_escape(a: u8, b: u8, y: Seq<u8>)
    requires
        paths::is_hex(a),
        paths::is_hex(b),
    ensures
        paths::percent_bytes(seq![0x25u8, a, b] + y) == seq![
            (paths::hex_value(a) * 16 + paths::hex_value(b)) as u8,
        ] + paths::percent_bytes(y),
{
    assert((seq![0x25u8, a, b] + y).skip(3) =~= y);
}

/// However a slash is written, it parts a path in two.
pub proof fn law_slash_separates(a: Seq<char>, slash: Seq<char>, b: Seq<char>)
    requires
        is_slash(slash),
    ensures
        paths::decoded_path(a + slash + b) == paths::decoded_path(a).push('/')
            + paths::decoded_path(b),
{
    let x = vstd::utf8::encode_utf8(a);
    let y = vstd::utf8::encode_utf8(b);
    let s = vstd::utf8::encode_utf8(slash);
    lemma_encode_join(a + slash, b);
    lemma_encode_join(a, slash);
    assert(x + s + y =~= x + (s + y));
    lemma_one_byte('/');
    lemma_escape_bytes('2', 'f');
    lemma_escape_bytes('2', 'F');
    assert(s[0] == 0x2f || s[0] == 0x25);
    lemma_percent_join(x, s + y);
    assert(paths::percent_bytes(s + y) == seq![0x2fu8] + paths::percent_bytes(y)) by {
        if slash == seq!['/'] {
            assert((s + y).skip(1) =~= y);
        } else {
            lemma_escape(s[1], s[2], y);
        }
    }
    assert(paths::percent_bytes(x + s + y) =~= paths::percent_bytes(x).push(0x2f)
        + paths::percent_bytes(y));
    lemma_lossy_join(paths::percent_bytes(x), paths::percent_bytes(y));
}

/// The bytes that a dot decodes to.
proof fn lemma_dot_bytes(dot: Seq<char>, y: Seq<u8>)
    requires
        is_dot(dot),
    ensures
        paths::percent_bytes(vstd::utf8::encode_utf8(dot) + y) == seq![0x2eu8]
            + paths::percent_bytes(y),
{
    let s = vstd::utf8::encode_utf8(dot);
    lemma_one_byte('.');
    lemma_escape_bytes('2', 'e');
    lemma_escape_bytes('2', 'E');
    if dot == seq!['.'] {
        assert((s + y).skip(1) =~= y);
    } else {
        lemma_escape(s[1], s[2], y);
    }
}

/// However they are written, one dot and two dots decode to themselves.
pub proof fn law_dots_decode(first: Seq<char>, second: Seq<char>)
    requires
        is_dot(first),
        is_dot(second),
    ensures
        paths::decoded_path(first) == seq!['.'],
        paths::decoded_path(first + second) == seq!['.', '.'],
{
    let none = Seq::<u8>::empty();
    let x = vstd::utf8::encode_utf8(first);
    let y = vstd::utf8::encode_utf8(second);
    lemma_encode_join(first, second);
    lemma_dot_bytes(first, none);
    lemma_dot_bytes(second, none);
    lemma_dot_bytes(first, y);
    assert(x + none =~= x);
    assert(y + none =~= y);
    lemma_one_byte('.');
    lemma_encode_join(seq!['.'], seq!['.']);
    assert(seq!['.'] + seq!['.'] =~= seq!['.', '.']);
    assert(paths::percent_bytes(x) =~= vstd::utf8::encode_utf8(seq!['.']));
    assert(paths::percent_bytes(x + y) =~= vstd::utf8::encode_utf8(seq!['.', '.']));
    lemma_lossy_text(seq!['.']);
    lemma_lossy_text(seq!['.', '.']);
}

/// A path with a dot segment is refused, however the dots and the slashes
/// round them are written, and whatever stands before and after them.
pub proof fn law_dot_segment_refused(
    before: Seq<char>,
    left: Seq<char>,
    dots: Seq<char>,
    right: Seq<char>,
    after: Seq<char>,
)
    requires
        is_slash(left),
        is_slash(right),
        is_dot(dots) || exists|a: Seq<char>, b: Seq<char>|
            is_dot(a) && is_dot(b) && dots == #[trigger] (a + b),
    ensures
        paths::has_dots(paths::decoded_path(before + left + dots + right + after)),
        paths::has_dots(paths::decoded_path(before + left + dots)),
        paths::has_dots(paths::decoded_path(dots + right + after)),
        paths::has_dots(paths::decoded_path(dots)),
{
    let d = paths::decoded_path(dots);
    if is_dot(dots) {
        law_dots_decode(dots, dots);
    } else {
        let (a, b) = choose|a: Seq<char>, b: Seq<char>|
            is_dot(a) && is_dot(b) && dots == #[trigger] (a + b);
        law_dots_decode(a, b);
    }
    assert(paths::dot_segment_at(d, 0));
    law_slash_separates(before, left, dots);
    law_slash_separates(dots, right, after);
    law_slash_separates(before + left + dots, right, after);
    law_segments_join(paths::decoded_path(before), d);
    law_segments_join(d, paths::decoded_path(after));
    law_segments_join(paths::decoded_path(before + left + dots), paths::decoded_path(after));
}

/// A path that has a dot segment as it is written is refused.
pub proof fn law_written_dots_refused(path: Seq<char>)
    requires
        paths::has_dots(path),
    ensures
        paths::has_dots(paths::decoded_path(path)),
{
    let i = choose|i: int| paths::dot_segment_at(path, i);
    let n: int = if paths::ends_segment(path, i + 1) {
        i + 1
    } else {
        i + 2
    };
    let slash = seq!['/'];
    let one = seq!['.'];
    let dots = path.subrange(i, n);
    if n == i + 1 {
        assert(dots =~= one);
    } else {
        assert(dots =~= one + one);
    }
    let before = if i == 0 {
        Seq::<char>::empty()
    } else {
        path.take(i - 1)
    };
    let after = if n == path.len() {
        Seq::<char>::empty()
    } else {
        path.skip(n + 1)
    };
    law_dot_segment_refused(before, slash, dots, slash, after);
    if i == 0 && n == path.len() {
        assert(path =~= dots);
    } else if i == 0 {
        assert(path =~= dots + slash + after);
    } else if n == path.len() {
        assert(path =~= before + slash + dots);
    } else {
        assert(path =~= before + slash + dots + slash + after);
    }
}

// ---------------------------------------------------------------------------
// What is admitted
// ---------------------------------------------------------------------------

/// A path without a percent sign decodes to itself.
pub proof fn law_plain_path_decodes_to_itself(path: Seq<char>)
    requires
        !path.contains('%'),
    ensures
        paths::decoded_path(path) == path,
{
    lemma_encode_lacks(path, '%');
    lemma_percent_plain(vstd::utf8::encode_utf8(path));
    lemma_lossy_text(path);
}

/// A target without escapes and query is admitted just where it has no dot
/// segment.
pub proof fn law_plain_path_admitted(path: Seq<char>)
    requires
        !path.contains('%'),
        !path.contains('?'),
    ensures
        paths::is_admitted(path) == !paths::has_dots(path),
{
    law_plain_path_decodes_to_itself(path);
    path.index_of_first_ensures('?');
}

/// The query has no say in whether a target is admitted.
pub proof fn law_query_ignored(path: Seq<char>, query: Seq<char>)
    requires
        !path.contains('?'),
    ensures
        paths::is_admitted(path.push('?') + query) == paths::is_admitted(path),
{
    let target = path.push('?') + query;
    path.index_of_first_ensures('?');
    target.index_of_first_ensures('?');
    assert(target[path.len() as int] == '?');
    let i = target.index_of_first('?')->Some_0;
    assert(i <= path.len());
    if i < path.len() {
        assert(path.contains(path[i]));
    }
    assert(target.take(i) =~= path);
}

/// What follows `/v1` in a target is what is appended to the base URL.
pub proof fn law_version_prefix_stripped(rest: Seq<char>)
    ensures
        paths::forward_part("/v1"@ + rest) == rest,
{
    let target = "/v1"@ + rest;
    assert("/v1"@ =~= target.subrange(0, "/v1"@.len() as int));
    assert(target.skip("/v1"@.len() as int) =~= rest);
}

// ---------------------------------------------------------------------------
// Segments and targets, written out
// ---------------------------------------------------------------------------

/// A path has a dot segment just where it is made of three parts: one that is
/// empty or ends with a slash, one or two dots, and one that is empty or starts
/// with a slash.
pub proof fn law_dot_segments_stand_between_slashes(path: Seq<char>)
    ensures
        paths::has_dots(path) == exists|a: Seq<char>, dots: Seq<char>, b: Seq<char>|
            path == #[trigger] (a + dots + b) && (dots == seq!['.'] || dots == seq!['.', '.'])
                && (a.len() == 0 || a.last() == '/') && (b.len() == 0 || b[0] == '/'),
{
    if paths::has_dots(path) {
        let i = choose|i: int| paths::dot_segment_at(path, i);
        let n: int = if paths::ends_segment(path, i + 1) {
            i + 1
        } else {
            i + 2
        };
        let a = path.take(i);
        let dots = path.subrange(i, n);
        let b = path.skip(n);
        if n == i + 1 {
            assert(dots =~= seq!['.']);
        } else {
            assert(dots =~= seq!['.', '.']);
        }
        assert(path =~= a + dots + b);
    }
    if exists|a: Seq<char>, dots: Seq<char>, b: Seq<char>|
        path == #[trigger] (a + dots + b) && (dots == seq!['.'] || dots == seq!['.', '.']) && (
        a.len() == 0 || a.last() == '/') && (b.len() == 0 || b[0] == '/') {
        let (a, dots, b) = choose|a: Seq<char>, dots: Seq<char>, b: Seq<char>|
            path == #[trigger] (a + dots + b) && (dots == seq!['.'] || dots == seq!['.', '.']) && (
            a.len() == 0 || a.last() == '/') && (b.len() == 0 || b[0] == '/');
        let i = a.len() as int;
        assert(path[i] == dots[0]);
        if a.len() > 0 {
            assert(path[i - 1] == a.last());
        }
        if dots.len() == 2 {
            assert(path[i + 1] == dots[1]);
        }
        if b.len() > 0 {
            assert(path[i + dots.len()] == b[0]);
        }
        assert(paths::ends_segment(path, i + dots.len()));
        assert(paths::dot_segment_at(path, i));
    }
}

/// The path of a target is all of it before the first `?`.
pub proof fn law_path_ends_at_query(path: Seq<char>, query: Seq<char>)
    requires
        !path.contains('?'),
    ensures
        paths::path_part(path) == path,
        paths::path_part(path.push('?') + query) == path,
{
    let target = path.push('?') + query;
    path.index_of_first_ensures('?');
    target.index_of_first_ensures('?');
    assert(target[path.len() as int] == '?');
    let i = target.index_of_first('?')->Some_0;
    if i < path.len() {
        assert(path.contains(path[i]));
    }
    assert(target.take(i) =~= path);
}

/// A target that does not start with `/v1` is appended as it is.
pub proof fn law_other_targets_stay(target: Seq<char>)
    ensures
        !"/v1"@.is_prefix_of(target) ==> paths::forward_part(target) == target,
        "/v1"@.is_prefix_of(target) ==> target == "/v1"@ + paths::forward_part(target),
{
    if "/v1"@.is_prefix_of(target) {
        assert(target =~= "/v1"@ + target.skip("/v1"@.len() as int));
    }
}

/// An escape is one byte, whatever case its digits are in; a percent sign
/// without two digits after it, and every other byte, stands for itself.
pub proof fn law_escapes_are_bytes(high: u8, low: u8, rest: Seq<u8>)
    requires
        high < 16,
        low < 16,
    ensures
        ({
            let h = if high < 10 {
                0x30 + high
            } else {
                0x37 + high
            };
            let l = if low < 10 {
                0x30 + low
            } else {
                0x57 + low
            };
            paths::percent_bytes(seq![0x25u8, h as u8, l as u8] + rest) == seq![
                (16 * high + low) as u8,
            ] + paths::percent_bytes(rest)
        }),
        forall|b: u8|
            b != 0x25 ==> #[trigger] paths::percent_bytes(seq![b] + rest) == seq![b]
                + paths::percent_bytes(rest),
{
    let h = (if high < 10 {
        0x30 + high
    } else {
        0x37 + high
    }) as u8;
    let l = (if low < 10 {
        0x30 + low
    } else {
        0x57 + low
    }) as u8;
    lemma_escape(h, l, rest);
    assert forall|b: u8| b != 0x25 implies #[trigger] paths::percent_bytes(seq![b] + rest)
        == seq![b] + paths::percent_bytes(rest) by {
        assert((seq![b] + rest).skip(1) =~= rest);
    }
}

/// A target without escapes is refused just where its path, before any query,
/// has one or two dots between slashes or at its ends.
pub proof fn law_plain_targets(path: Seq<char>, query: Seq<char>)
    requires
        !path.contains('%'),
        !path.contains('?'),
    ensures
        paths::is_admitted(path) == !(exists|a: Seq<char>, dots: Seq<char>, b: Seq<char>|
            path == #[trigger] (a + dots + b) && (dots == seq!['.'] || dots == seq!['.', '.'])
                && (a.len() == 0 || a.last() == '/') && (b.len() == 0 || b[0] == '/')),
        paths::is_admitted(path.push('?') + query) == paths::is_admitted(path),
{
    law_plain_path_admitted(path);
    law_query_ignored(path, query);
    law_dot_segments_stand_between_slashes(path);
}

/// A target below `/v1` that is admitted goes to the same place below the base
/// URL of the backend, query and all: the base URL is the start of where it
/// goes, what follows `/v1` is the rest, and nothing stands between.
pub proof fn law_urls_are_base_and_rest(base: Seq<char>, rest: Seq<char>)
    ensures
        ({
            let url = paths::url_below(base, paths::forward_part("/v1"@ + rest));
            &&& url is Some == paths::is_admitted(rest)
            &&& url is Some ==> base.is_prefix_of(url->Some_0) && rest.is_suffix_of(url->Some_0)
                && url->Some_0.len() == base.len() + rest.len()
        }),
        paths::url_below(base, rest) is Some == paths::is_admitted(rest),
        paths::url_below(base, rest) matches Some(url) ==> url == base + rest,
{
    law_version_prefix_stripped(rest);
    let url = base + rest;
    assert(base =~= url.subrange(0, base.len() as int));
    assert(rest =~= url.subrange(url.len() - rest.len(), url.len() as int));
}

} // verus!
