//! Which request paths are forwarded, and where to.

use crate::text;
use crate::text::{chars_of, joined, slice_text, without_prefix};
use vstd::prelude::*;

verus! {

broadcast use vstd::string::group_string_axioms;

// ---------------------------------------------------------------------------
// Percent decoding
// ---------------------------------------------------------------------------

/// The byte is a hexadecimal digit, in either case.
pub open spec fn is_hex(b: u8) -> bool {
    ||| 0x30 <= b <= 0x39
    ||| 0x41 <= b <= 0x46
    ||| 0x61 <= b <= 0x66
}

/// The value of a hexadecimal digit.
pub open spec fn hex_value(b: u8) -> int {
    if b <= 0x39 {
        b - 0x30
    } else if b <= 0x46 {
        b - 0x41 + 10
    } else {
        b - 0x61 + 10
    }
}

/// `bytes` start with a percent sign and two hexadecimal digits.
pub open spec fn starts_escape(bytes: Seq<u8>) -> bool {
    bytes.len() >= 3 && bytes[0] == 0x25 && is_hex(bytes[1]) && is_hex(bytes[2])
}

/// `bytes` with each percent sign and the two hexadecimal digits after it
/// replaced by the byte that they stand for.
pub open spec fn percent_bytes(bytes: Seq<u8>) -> Seq<u8>
    decreases bytes.len(),
{
    if bytes.len() == 0 {
        bytes
    } else if starts_escape(bytes) {
        seq![(hex_value(bytes[1]) * 16 + hex_value(bytes[2])) as u8] + percent_bytes(bytes.skip(3))
    } else {
        seq![bytes[0]] + percent_bytes(bytes.skip(1))
    }
}

/// The number of bytes that `String::from_utf8_lossy` replaces by one
/// replacement character, where `bytes` do not start with a character.
pub uninterp spec fn invalid_len(bytes: Seq<u8>) -> int;

/// That number, within its bounds.
pub open spec fn replaced_len(bytes: Seq<u8>) -> int {
    if 1 <= invalid_len(bytes) <= bytes.len() {
        invalid_len(bytes)
    } else {
        1
    }
}

/// The text of some bytes, with a replacement character for each sequence that
/// is not UTF-8.
pub open spec fn lossy_piece(bytes: Seq<u8>) -> Seq<char>
    decreases bytes.len(),
{
    if bytes.len() == 0 {
        seq![]
    } else if vstd::utf8::valid_first_scalar(bytes) {
        seq![vstd::utf8::decode_first_scalar(bytes) as char] + lossy_piece(
            vstd::utf8::pop_first_scalar(bytes),
        )
    } else {
        seq!['\u{fffd}'] + lossy_piece(bytes.skip(replaced_len(bytes)))
    }
}

/// The text of some bytes, taken from slash to slash: a slash stands for
/// itself wherever it is, and is part of no invalid sequence.
pub open spec fn lossy_text(bytes: Seq<u8>) -> Seq<char>
    decreases bytes.len(),
{
    let at = bytes.index_of_first(0x2f);
    match at {
        Some(i) => if 0 <= i < bytes.len() {
            lossy_piece(bytes.take(i)).push('/') + lossy_text(bytes.skip(i + 1))
        } else {
            seq![]
        },
        None => lossy_piece(bytes),
    }
}

/// Each byte as the character with its number.
pub open spec fn byte_chars(bytes: Seq<u8>) -> Seq<char> {
    bytes.map_values(|b: u8| b as char)
}

/// A path without its percent escapes.
pub open spec fn decoded_path(path: Seq<char>) -> Seq<char> {
    lossy_text(percent_bytes(vstd::utf8::encode_utf8(path)))
}

/// `percent_encoding::percent_decode_str` and `decode_utf8_lossy` on its
/// result: each percent sign with two hexadecimal digits becomes the byte that
/// they stand for, and the bytes become text. Each sequence of bytes that is
/// not UTF-8 becomes one replacement character, as by `String::from_utf8_lossy`;
/// a slash is never part of one. How long such a sequence is taken to be is not
/// said, only that it has a byte.
#[verifier::external_body]
pub(crate) fn percent_decoded(path: &str) -> (r: String)
    ensures
        r@ == decoded_path(path@),
        ({
            let bytes = percent_bytes(vstd::utf8::encode_utf8(path@));
            !bytes.contains(0x2f) && !vstd::utf8::valid_first_scalar(bytes) && 1 <= invalid_len(bytes)
                <= bytes.len() ==> r@ == seq!['\u{fffd}'] + lossy_piece(
                bytes.skip(invalid_len(bytes)),
            )
        }),
{
    percent_encoding::percent_decode_str(path).decode_utf8_lossy().into_owned()
}

// ---------------------------------------------------------------------------
// Dot segments
// ---------------------------------------------------------------------------

/// A segment of `path` ends at `i`.
pub open spec fn ends_segment(path: Seq<char>, i: int) -> bool {
    i == path.len() || (0 <= i < path.len() && path[i] == '/')
}

/// The segment of `path` that starts at `i` is `.` or `..`.
pub open spec fn dot_segment_at(path: Seq<char>, i: int) -> bool {
    &&& 0 <= i < path.len()
    &&& i == 0 || path[i - 1] == '/'
    &&& path[i] == '.'
    &&& ends_segment(path, i + 1) || (i + 1 < path.len() && path[i + 1] == '.' && ends_segment(
        path,
        i + 2,
    ))
}

/// Some segment of `path` between slashes is `.` or `..`.
pub open spec fn has_dots(path: Seq<char>) -> bool {
    exists|i: int| dot_segment_at(path, i)
}

/// Whether some segment of a path between slashes is `.` or `..`.
pub fn has_dot_segment(path: &str) -> (r: bool)
    ensures
        r == has_dots(path@),
{
    let chars = chars_of(path);
    let len = chars.len();
    let mut i: usize = 0;
    while i < len
        invariant
            i <= len == chars@.len(),
            chars@ == path@,
            forall|j: int| 0 <= j < i ==> !dot_segment_at(path@, j),
        decreases len - i,
    {
        if (i == 0 || chars[i - 1] == '/') && chars[i] == '.' {
            if i + 1 == len || chars[i + 1] == '/' {
                assert(dot_segment_at(path@, i as int));
                return true;
            }
            if chars[i + 1] == '.' && (i + 2 == len || chars[i + 2] == '/') {
                assert(dot_segment_at(path@, i as int));
                return true;
            }
        }
        i += 1;
    }
    false
}

// ---------------------------------------------------------------------------
// Targets
// ---------------------------------------------------------------------------

/// A request target as it is appended to the base URL of the backend, which
/// holds the `/v1` itself.
pub open spec fn forward_part(target: Seq<char>) -> Seq<char> {
    match text::after_prefix(target, "/v1"@) {
        Some(rest) => rest,
        None => target,
    }
}

/// The part of a target before its query.
pub open spec fn path_part(target: Seq<char>) -> Seq<char> {
    match target.index_of_first('?') {
        Some(i) => target.take(i),
        None => target,
    }
}

/// The path of a target has, with its escapes decoded, no dot segment.
pub open spec fn is_admitted(target: Seq<char>) -> bool {
    !has_dots(decoded_path(path_part(target)))
}

/// Where a target goes: below `base`, or nowhere where it is not admitted.
pub open spec fn url_below(base: Seq<char>, target: Seq<char>) -> Option<Seq<char>> {
    if is_admitted(target) {
        Some(base + target)
    } else {
        None
    }
}

/// A request target as it is appended to the base URL of the backend.
pub fn forward_path(target: &str) -> (r: String)
    ensures
        r@ == forward_part(target@),
{
    match without_prefix(target, "/v1") {
        Some(rest) => rest,
        None => target.to_owned(),
    }
}

/// The part of a target before its query.
pub fn path_only(target: &str) -> (r: String)
    ensures
        r@ == path_part(target@),
{
    let chars = chars_of(target);
    let mut i: usize = 0;
    while i < chars.len()
        invariant
            i <= chars@.len(),
            chars@ == target@,
            forall|j: int| 0 <= j < i ==> chars@[j] != '?',
        decreases chars.len() - i,
    {
        if chars[i] == '?' {
            proof {
                target@.index_of_first_ensures('?');
                let first = target@.index_of_first('?')->Some_0;
                assert(target@.contains(chars@[i as int]));
                assert(first == i);
                assert(target@.subrange(0, i as int) =~= target@.take(i as int));
            }
            return slice_text(&chars, 0, i);
        }
        i += 1;
    }
    proof {
        target@.index_of_first_ensures('?');
        assert(!target@.contains('?'));
    }
    target.to_owned()
}

/// Where a target goes, given its path without escapes: below `base`, or
/// nowhere where that path has a dot segment.
pub fn target_below(base: &str, target: &str, decoded: &str) -> (r: Option<String>)
    ensures
        match r {
            Some(url) => !has_dots(decoded@) && url@ == base@ + target@,
            None => has_dots(decoded@),
        },
{
    if has_dot_segment(decoded) {
        None
    } else {
        Some(joined(base, target))
    }
}

/// Where a target goes: below `base`, or nowhere where its path has a dot
/// segment. The query is not looked at, and the escapes stay as they are.
pub fn target_url(base: &str, target: &str) -> (r: Option<String>)
    ensures
        match r {
            Some(url) => is_admitted(target@) && url@ == base@ + target@,
            None => !is_admitted(target@),
        },
        url_below(base@, target@) == match r {
            Some(url) => Some(url@),
            None => None,
        },
{
    let decoded = percent_decoded(path_only(target).as_str());
    target_below(base, target, decoded.as_str())
}

/// Where a request for `target` goes at the backend with the API base URL
/// `backend_url`, or nowhere where its path has a dot segment.
pub fn forward_url(backend_url: &str, target: &str) -> (r: Option<String>)
    ensures
        match r {
            Some(url) => is_admitted(forward_part(target@)) && url@ == backend_url@ + forward_part(
                target@,
            ),
            None => !is_admitted(forward_part(target@)),
        },
        url_below(backend_url@, forward_part(target@)) == match r {
            Some(url) => Some(url@),
            None => None,
        },
{
    target_url(backend_url, forward_path(target).as_str())
}

} // verus!
