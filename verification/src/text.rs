//! Text as sequences of characters: order, trimming, case and slices.

use vstd::prelude::*;

verus! {

broadcast use vstd::string::group_string_axioms;

// ---------------------------------------------------------------------------
// Order
// ---------------------------------------------------------------------------

/// `a` comes before `b`: at the first place where the two differ, `a` has
/// ended or holds the smaller code point.
pub open spec fn precedes(a: Seq<char>, b: Seq<char>) -> bool
    decreases a.len(),
{
    if b.len() == 0 {
        false
    } else if a.len() == 0 {
        true
    } else if a[0] == b[0] {
        precedes(a.drop_first(), b.drop_first())
    } else {
        a[0] < b[0]
    }
}

/// How two texts compare.
#[derive(Clone, Copy, PartialEq, Eq, Structural, Debug)]
pub enum TextOrder {
    /// The first text comes before the second.
    Before,
    /// The two texts hold the same characters.
    Same,
    /// The first text comes after the second.
    After,
}

/// The order of two texts.
pub open spec fn order_of(a: Seq<char>, b: Seq<char>) -> TextOrder {
    if a == b {
        TextOrder::Same
    } else if precedes(a, b) {
        TextOrder::Before
    } else {
        TextOrder::After
    }
}

/// No text comes before itself.
pub proof fn law_precedes_irreflexive(a: Seq<char>)
    ensures
        !precedes(a, a),
    decreases a.len(),
{
    if a.len() > 0 {
        law_precedes_irreflexive(a.drop_first());
    }
}

/// The order of texts is transitive.
pub proof fn law_precedes_transitive(a: Seq<char>, b: Seq<char>, c: Seq<char>)
    requires
        precedes(a, b),
        precedes(b, c),
    ensures
        precedes(a, c),
    decreases a.len(),
{
    if a.len() > 0 && a[0] == b[0] && b[0] == c[0] {
        law_precedes_transitive(a.drop_first(), b.drop_first(), c.drop_first());
    }
}

/// Of two different texts one comes before the other.
pub proof fn law_precedes_total(a: Seq<char>, b: Seq<char>)
    ensures
        a == b || precedes(a, b) || precedes(b, a),
    decreases a.len(),
{
    if a.len() == 0 || b.len() == 0 {
        assert(a.len() == b.len() ==> a =~= b);
    } else if a[0] == b[0] {
        law_precedes_total(a.drop_first(), b.drop_first());
        if a.drop_first() == b.drop_first() {
            assert(a =~= seq![a[0]] + a.drop_first());
            assert(b =~= seq![b[0]] + b.drop_first());
        }
    }
}

/// Of two texts at most one comes before the other.
pub proof fn law_precedes_antisymmetric(a: Seq<char>, b: Seq<char>)
    requires
        precedes(a, b),
    ensures
        !precedes(b, a),
        a != b,
{
    if precedes(b, a) {
        law_precedes_transitive(a, b, a);
    }
    law_precedes_irreflexive(a);
}

/// Compares two texts by their code points.
pub fn text_order(a: &str, b: &str) -> (r: TextOrder)
    ensures
        r == order_of(a@, b@),
{
    let mut left = a.chars();
    let mut right = b.chars();
    loop
        invariant
            order_of(a@, b@) == order_of(vstd::std_specs::iter::IteratorSpec::remaining(&left), vstd::std_specs::iter::IteratorSpec::remaining(&right)),
            vstd::std_specs::iter::IteratorSpec::decrease(&left) is Some,
            vstd::std_specs::iter::IteratorSpec::obeys_prophetic_iter_laws(&left),
            vstd::std_specs::iter::IteratorSpec::obeys_prophetic_iter_laws(&right),
        decreases vstd::std_specs::iter::IteratorSpec::decrease(&left)->0,
    {
        let ghost before_left = vstd::std_specs::iter::IteratorSpec::remaining(&left);
        let ghost before_right = vstd::std_specs::iter::IteratorSpec::remaining(&right);
        let x = left.next();
        let y = right.next();
        match (x, y) {
            (None, None) => {
                assert(before_left =~= before_right);
                return TextOrder::Same;
            },
            (None, Some(_)) => {
                return TextOrder::Before;
            },
            (Some(_), None) => {
                return TextOrder::After;
            },
            (Some(c), Some(d)) => {
                if c != d {
                    return if c < d {
                        TextOrder::Before
                    } else {
                        TextOrder::After
                    };
                }
                proof {
                    assert(before_left =~= seq![c] + vstd::std_specs::iter::IteratorSpec::remaining(&left));
                    assert(before_right =~= seq![d] + vstd::std_specs::iter::IteratorSpec::remaining(&right));
                }
            },
        }
    }
}

/// Whether two texts hold the same characters.
pub fn same_text(a: &str, b: &str) -> (r: bool)
    ensures
        r == (a@ == b@),
{
    match text_order(a, b) {
        TextOrder::Same => true,
        _ => false,
    }
}

// ---------------------------------------------------------------------------
// White space
// ---------------------------------------------------------------------------

/// The characters with the Unicode property `White_Space`.
pub open spec fn is_white_space(c: char) -> bool {
    let n = c as u32;
    ||| 0x09 <= n <= 0x0d
    ||| n == 0x20
    ||| n == 0x85
    ||| n == 0xa0
    ||| n == 0x1680
    ||| 0x2000 <= n <= 0x200a
    ||| n == 0x2028
    ||| n == 0x2029
    ||| n == 0x202f
    ||| n == 0x205f
    ||| n == 0x3000
}

/// `s` without the white space at its start.
pub open spec fn trimmed_start(s: Seq<char>) -> Seq<char>
    decreases s.len(),
{
    if s.len() > 0 && is_white_space(s[0]) {
        trimmed_start(s.drop_first())
    } else {
        s
    }
}

/// `s` without the white space at its end.
pub open spec fn trimmed_end(s: Seq<char>) -> Seq<char>
    decreases s.len(),
{
    if s.len() > 0 && is_white_space(s.last()) {
        trimmed_end(s.drop_last())
    } else {
        s
    }
}

/// `s` without the white space at its two ends.
pub open spec fn trimmed(s: Seq<char>) -> Seq<char> {
    trimmed_end(trimmed_start(s))
}

/// What is left at the end is the end of the text.
pub proof fn lemma_trimmed_start(s: Seq<char>)
    ensures
        trimmed_start(s).len() <= s.len(),
        trimmed_start(s) == s.skip(s.len() - trimmed_start(s).len()),
        trimmed_start(s).len() > 0 ==> !is_white_space(trimmed_start(s)[0]),
    decreases s.len(),
{
    if s.len() > 0 && is_white_space(s[0]) {
        let rest = s.drop_first();
        lemma_trimmed_start(rest);
        assert(rest.skip(rest.len() - trimmed_start(s).len()) =~= s.skip(
            s.len() - trimmed_start(s).len(),
        ));
    } else {
        assert(s.skip(0) =~= s);
    }
}

/// What is left at the start is the start of the text.
pub proof fn lemma_trimmed_end(s: Seq<char>)
    ensures
        trimmed_end(s).len() <= s.len(),
        trimmed_end(s) == s.take(trimmed_end(s).len() as int),
        trimmed_end(s).len() > 0 ==> !is_white_space(trimmed_end(s).last()),
    decreases s.len(),
{
    if s.len() > 0 && is_white_space(s.last()) {
        lemma_trimmed_end(s.drop_last());
        assert(s.drop_last().take(trimmed_end(s).len() as int) =~= s.take(
            trimmed_end(s).len() as int,
        ));
    } else {
        assert(s.take(s.len() as int) =~= s);
    }
}

/// Trimming twice is trimming once.
pub proof fn law_trimmed_idempotent(s: Seq<char>)
    ensures
        trimmed(trimmed(s)) == trimmed(s),
{
    let a = trimmed_start(s);
    lemma_trimmed_start(s);
    lemma_trimmed_end(a);
    let b = trimmed_end(a);
    if b.len() > 0 {
        assert(b[0] == a[0]);
    }
}

/// `str::trim`: the slice without leading and trailing characters that have
/// the Unicode property `White_Space`, whose members [`is_white_space`] lists.
pub assume_specification[ str::trim ](s: &str) -> (r: &str)
    ensures
        r@ == trimmed(s@),
;

// ---------------------------------------------------------------------------
// Case
// ---------------------------------------------------------------------------

/// A letter `A` to `Z` in lower case; every other character as it is.
pub open spec fn ascii_lower_char(c: char) -> char {
    if 'A' <= c <= 'Z' {
        ((c as u32) + 32) as char
    } else {
        c
    }
}

/// The text with its letters `A` to `Z` in lower case.
pub open spec fn ascii_lower(s: Seq<char>) -> Seq<char> {
    s.map_values(|c: char| ascii_lower_char(c))
}

/// The text in lower case by the rules of Unicode, as `str::to_lowercase`
/// returns it.
pub uninterp spec fn lowercase(s: Seq<char>) -> Seq<char>;

/// `str::to_lowercase`: the lower case of a text depends on the text alone;
/// in a text of ASCII characters only the letters `A` to `Z` change.
pub assume_specification[ str::to_lowercase ](s: &str) -> (r: String)
    ensures
        r@ == lowercase(s@),
        vstd::utf8::is_ascii_chars(s@) ==> r@ == ascii_lower(s@),
;

/// `str::eq_ignore_ascii_case`: whether the two texts are the same once the
/// letters `A` to `Z` are in lower case in both.
pub assume_specification[ str::eq_ignore_ascii_case ](s: &str, other: &str) -> (r: bool)
    ensures
        r == (ascii_lower(s@) == ascii_lower(other@)),
;

// ---------------------------------------------------------------------------
// Slices
// ---------------------------------------------------------------------------

/// `String::push`: appends one character.
pub assume_specification[ String::push ](s: &mut String, c: char)
    ensures
        final(s)@ == old(s)@.push(c),
;

/// The characters of a text.
pub fn chars_of(s: &str) -> (r: Vec<char>)
    ensures
        r@ == s@,
{
    let mut out: Vec<char> = Vec::new();
    for c in it: s.chars()
        invariant
            it.seq() == s@,
            out@ == s@.take(it.index()),
    {
        out.push(c);
        assert(s@.take(it.index() + 1) =~= s@.take(it.index()).push(c));
    }
    assert(s@.take(s@.len() as int) =~= s@);
    out
}

/// The characters from `from` up to and without `to` as a text.
pub fn slice_text(chars: &Vec<char>, from: usize, to: usize) -> (r: String)
    requires
        from <= to <= chars@.len(),
    ensures
        r@ == chars@.subrange(from as int, to as int),
{
    let mut out = String::new();
    let mut i: usize = from;
    assert(chars@.subrange(from as int, from as int) =~= Seq::<char>::empty());
    while i < to
        invariant
            from <= i <= to <= chars@.len(),
            out@ == chars@.subrange(from as int, i as int),
        decreases to - i,
    {
        out.push(chars[i]);
        i += 1;
        assert(chars@.subrange(from as int, i as int) =~= chars@.subrange(
            from as int,
            i - 1,
        ).push(chars@[i - 1]));
    }
    out
}

/// The two texts one after the other.
pub fn joined(a: &str, b: &str) -> (r: String)
    ensures
        r@ == a@ + b@,
{
    let mut out = a.to_owned();
    out.append(b);
    out
}

// ---------------------------------------------------------------------------
// Prefixes and suffixes
// ---------------------------------------------------------------------------

/// What follows `prefix` in `s`; nothing where `s` does not start with it.
pub open spec fn after_prefix(s: Seq<char>, prefix: Seq<char>) -> Option<Seq<char>> {
    if prefix.is_prefix_of(s) {
        Some(s.skip(prefix.len() as int))
    } else {
        None
    }
}

/// What comes before `suffix` in `s`; nothing where `s` does not end with it.
pub open spec fn before_suffix(s: Seq<char>, suffix: Seq<char>) -> Option<Seq<char>> {
    if suffix.is_suffix_of(s) {
        Some(s.take(s.len() - suffix.len()))
    } else {
        None
    }
}

/// Whether `part` stands in `chars` at the place `at`.
fn stands_at(chars: &Vec<char>, part: &Vec<char>, at: usize) -> (r: bool)
    requires
        at + part@.len() <= chars@.len(),
    ensures
        r == (chars@.subrange(at as int, at + part@.len()) == part@),
{
    let len = chars.len();
    let mut i: usize = 0;
    while i < part.len()
        invariant
            i <= part@.len(),
            at + part@.len() <= chars@.len() == len,
            forall|j: int| 0 <= j < i ==> chars@[at + j] == #[trigger] part@[j],
        decreases part.len() - i,
    {
        if chars[at + i] != part[i] {
            proof {
                assert(chars@.subrange(at as int, at + part@.len())[i as int] != part@[i as int]);
            }
            return false;
        }
        i += 1;
    }
    assert(chars@.subrange(at as int, at + part@.len()) =~= part@);
    true
}

/// What follows `prefix` in `s`.
pub fn without_prefix(s: &str, prefix: &str) -> (r: Option<String>)
    ensures
        match r {
            Some(rest) => after_prefix(s@, prefix@) == Some(rest@),
            None => after_prefix(s@, prefix@) is None,
        },
{
    let chars = chars_of(s);
    let part = chars_of(prefix);
    if part.len() <= chars.len() && stands_at(&chars, &part, 0) {
        assert(s@.subrange(prefix@.len() as int, s@.len() as int) =~= s@.skip(
            prefix@.len() as int,
        ));
        Some(slice_text(&chars, part.len(), chars.len()))
    } else {
        None
    }
}

/// What comes before `suffix` in `s`.
pub fn without_suffix(s: &str, suffix: &str) -> (r: Option<String>)
    ensures
        match r {
            Some(rest) => before_suffix(s@, suffix@) == Some(rest@),
            None => before_suffix(s@, suffix@) is None,
        },
{
    let chars = chars_of(s);
    let part = chars_of(suffix);
    if part.len() <= chars.len() && stands_at(&chars, &part, chars.len() - part.len()) {
        assert(s@.subrange(0, s@.len() - suffix@.len()) =~= s@.take(s@.len() - suffix@.len()));
        Some(slice_text(&chars, 0, chars.len() - part.len()))
    } else {
        None
    }
}

// ---------------------------------------------------------------------------
// Numbers
// ---------------------------------------------------------------------------

/// The decimal digit of a number below ten.
pub open spec fn digit_char(d: int) -> char {
    ((48 + d) as u8) as char
}

/// A number in decimal digits.
pub open spec fn decimal(n: nat) -> Seq<char>
    decreases n,
{
    if n < 10 {
        seq![digit_char(n as int)]
    } else {
        decimal(n / 10).push(digit_char((n % 10) as int))
    }
}

/// A number in decimal digits.
pub fn decimal_text(n: usize) -> (r: String)
    ensures
        r@ == decimal(n as nat),
    decreases n,
{
    let digit: u8 = 48 + (n % 10) as u8;
    let mut out = if n < 10 {
        String::new()
    } else {
        decimal_text(n / 10)
    };
    out.push(digit as char);
    assert(out@ =~= decimal(n as nat));
    out
}

// ---------------------------------------------------------------------------
// Laws
// ---------------------------------------------------------------------------

/// Of two texts with the same start, the one that ends there comes first, and
/// else the one that goes on with the smaller character.
pub proof fn law_first_difference_orders(
    start: Seq<char>,
    c: char,
    x: Seq<char>,
    d: char,
    y: Seq<char>,
)
    ensures
        order_of(start, start.push(c) + x) == TextOrder::Before,
        order_of(start.push(c) + x, start) == TextOrder::After,
        c < d ==> order_of(start.push(c) + x, start.push(d) + y) == TextOrder::Before,
        d < c ==> order_of(start.push(c) + x, start.push(d) + y) == TextOrder::After,
        order_of(start, start) == TextOrder::Same,
    decreases start.len(),
{
    let a = start.push(c) + x;
    let b = start.push(d) + y;
    assert(a.len() > start.len());
    if start.len() > 0 {
        let rest = start.drop_first();
        law_first_difference_orders(rest, c, x, d, y);
        assert(a.drop_first() =~= rest.push(c) + x);
        assert(b.drop_first() =~= rest.push(d) + y);
        assert(a[0] == start[0] && b[0] == start[0]);
        if rest.push(c) + x == rest {
            assert((rest.push(c) + x).len() > rest.len());
        }
    } else {
        assert(a[0] == c && b[0] == d);
    }
    if c != d {
        assert(a[start.len() as int] == c && b[start.len() as int] == d);
    }
    if precedes(a, start) {
        law_precedes_antisymmetric(a, start);
    }
}

/// Trimming takes white space from the two ends of a text, all of it, and
/// nothing else.
pub proof fn law_trimmed_is_the_middle(s: Seq<char>)
    ensures
        exists|i: int, j: int|
            0 <= i <= j <= s.len() && trimmed(s) == #[trigger] s.subrange(i, j) && (forall|k: int|
                0 <= k < i || j <= k < s.len() ==> is_white_space(#[trigger] s[k])) && (i < j
                ==> !is_white_space(s[i]) && !is_white_space(s[j - 1])),
{
    let a = trimmed_start(s);
    let b = trimmed_end(a);
    lemma_trimmed_start(s);
    lemma_trimmed_end(a);
    lemma_cut_is_white(s);
    let i = s.len() - a.len();
    let j = i + b.len();
    assert(b =~= s.subrange(i, j));
    if i < j {
        assert(b[0] == a[0] && a[0] == s[i]);
        assert(b.last() == s[j - 1]);
    }
    assert forall|k: int| 0 <= k < i || j <= k < s.len() implies is_white_space(
        #[trigger] s[k],
    ) by {
        if k >= j {
            assert(s[k] == a[k - i]);
        }
    }
}

/// What is cut off is white space.
proof fn lemma_cut_is_white(s: Seq<char>)
    ensures
        forall|k: int|
            0 <= k < s.len() - trimmed_start(s).len() ==> is_white_space(#[trigger] s[k]),
        forall|k: int|
            trimmed_end(trimmed_start(s)).len() <= k < trimmed_start(s).len() ==> is_white_space(
                #[trigger] trimmed_start(s)[k],
            ),
{
    lemma_start_is_white(s);
    lemma_end_is_white(trimmed_start(s));
}

/// What is cut off at the start is white space.
proof fn lemma_start_is_white(s: Seq<char>)
    ensures
        forall|k: int|
            0 <= k < s.len() - trimmed_start(s).len() ==> is_white_space(#[trigger] s[k]),
    decreases s.len(),
{
    if s.len() > 0 && is_white_space(s[0]) {
        lemma_start_is_white(s.drop_first());
        assert forall|k: int| 0 <= k < s.len() - trimmed_start(s).len() implies is_white_space(
            #[trigger] s[k],
        ) by {
            if k > 0 {
                assert(s.drop_first()[k - 1] == s[k]);
            }
        }
    }
}

/// What is cut off at the end is white space.
proof fn lemma_end_is_white(s: Seq<char>)
    ensures
        forall|k: int| trimmed_end(s).len() <= k < s.len() ==> is_white_space(#[trigger] s[k]),
    decreases s.len(),
{
    if s.len() > 0 && is_white_space(s.last()) {
        lemma_end_is_white(s.drop_last());
        assert forall|k: int| trimmed_end(s).len() <= k < s.len() implies is_white_space(
            #[trigger] s[k],
        ) by {
            if k < s.len() - 1 {
                assert(s.drop_last()[k] == s[k]);
            }
        }
    }
}

/// A text without white space at its ends is trimmed already.
pub proof fn law_trimmed_text_stays(s: Seq<char>)
    requires
        s.len() > 0 ==> !is_white_space(s[0]) && !is_white_space(s.last()),
    ensures
        trimmed(s) == s,
{
}

/// What is left of a text without its prefix or its suffix makes up the text
/// with it.
pub proof fn law_prefix_and_rest(prefix: Seq<char>, rest: Seq<char>, s: Seq<char>)
    ensures
        after_prefix(prefix + rest, prefix) == Some(rest),
        after_prefix(s, prefix) matches Some(left) ==> s == prefix + left,
        before_suffix(rest + prefix, prefix) == Some(rest),
        before_suffix(s, prefix) matches Some(left) ==> s == left + prefix,
{
    let a = prefix + rest;
    let b = rest + prefix;
    assert(a.subrange(0, prefix.len() as int) =~= prefix);
    assert(a.skip(prefix.len() as int) =~= rest);
    assert(b.subrange(b.len() - prefix.len(), b.len() as int) =~= prefix);
    assert(b.take(b.len() - prefix.len()) =~= rest);
    if let Some(left) = after_prefix(s, prefix) {
        assert(s =~= prefix + left);
    }
    if let Some(left) = before_suffix(s, prefix) {
        assert(s =~= left + prefix);
    }
}

} // verus!
