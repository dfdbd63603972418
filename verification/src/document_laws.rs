//! What is promised of INI documents as they are written, character by
//! character.

use crate::ini;
use crate::ini::{LineView, Run};
use crate::ini_laws;
use crate::ini_laws::Written;
use crate::text;
use vstd::prelude::*;

verus! {

broadcast use vstd::string::group_string_axioms;

// ---------------------------------------------------------------------------
// Lines that are followed by others
// ---------------------------------------------------------------------------

/// A run that ends before the end of a text ends there too where the text goes
/// on; every run but that of a section name ends before a line feed.
proof fn lemma_run_local(front: Seq<char>, rest: Seq<char>, i: int, run: Run)
    requires
        0 <= i < front.len(),
        front.last() == '\n',
    ensures
        ini::run_end(front, i, run) < front.len() ==> ini::run_end(front + rest, i, run)
            == ini::run_end(front, i, run),
        run != Run::Name ==> ini::run_end(front, i, run) < front.len(),
        i <= ini::run_end(front, i, run),
    decreases front.len() - i,
{
    assert((front + rest)[i] == front[i]);
    if i + 1 < front.len() {
        if ini::takes(run, front[i]) {
            lemma_run_local(front, rest, i + 1, run);
        }
    } else {
        assert(ini::run_end(front, i + 1, run) == i + 1);
    }
}

/// The end of a line is where it was.
proof fn lemma_close_local(front: Seq<char>, rest: Seq<char>, i: int)
    requires
        0 <= i < front.len(),
        front.last() == '\n',
    ensures
        ini::line_close(front + rest, i) == ini::line_close(front, i),
        ini::line_close(front, i) matches Some(next) ==> i < next <= front.len(),
        ini::value_stops(front + rest, i) == ini::value_stops(front, i),
{
    let s = front + rest;
    lemma_run_local(front, rest, i, Run::Blanks);
    let j = ini::run_end(front, i, Run::Blanks);
    assert(s[j] == front[j]);
    if ini::is_comment_mark(front[j]) {
        lemma_run_local(front, rest, j, Run::Rest);
    }
    let k = if ini::is_comment_mark(front[j]) {
        ini::run_end(front, j, Run::Rest)
    } else {
        j
    };
    assert(s[k] == front[k]);
    if k + 1 < front.len() {
        assert(s[k + 1] == front[k + 1]);
    }
}

/// The end of a value is where it was.
proof fn lemma_value_local(front: Seq<char>, rest: Seq<char>, i: int)
    requires
        0 <= i < front.len(),
        front.last() == '\n',
    ensures
        ini::value_end(front + rest, i) == ini::value_end(front, i),
        i <= ini::value_end(front, i) < front.len(),
    decreases front.len() - i,
{
    lemma_close_local(front, rest, i);
    if i + 1 < front.len() {
        if !ini::value_stops(front, i) {
            lemma_value_local(front, rest, i + 1);
        }
    } else {
        assert(ini::run_end(front, i, Run::Blanks) == i);
        assert(ini::value_stops(front, i));
    }
}

/// A line is what it was.
proof fn lemma_line_local(front: Seq<char>, rest: Seq<char>, i: int)
    requires
        0 <= i < front.len(),
        front.last() == '\n',
        ini::line_at(front, i) is Some,
    ensures
        ini::line_at(front + rest, i) == ini::line_at(front, i),
{
    let s = front + rest;
    assert(s[i] == front[i]);
    lemma_close_local(front, rest, i);
    if front[i] == '[' {
        lemma_run_local(front, rest, i, Run::Blanks);
        assert(i + 1 < front.len());
        lemma_run_local(front, rest, i + 1, Run::Blanks);
        let a = ini::run_end(front, i + 1, Run::Blanks);
        lemma_run_local(front, rest, a, Run::Name);
        let b = ini::run_end(front, a, Run::Name);
        ini_laws::lemma_run_takes(front, a, Run::Name);
        if a < b < front.len() {
            assert(front[b] == ']');
            assert(b + 1 < front.len());
            lemma_close_local(front, rest, b + 1);
            assert(s.subrange(a, b) =~= front.subrange(a, b));
        }
    } else if ini::is_key_start(front[i]) {
        assert(i + 1 < front.len());
        lemma_run_local(front, rest, i + 1, Run::Key);
        let a = ini::run_end(front, i + 1, Run::Key);
        lemma_run_local(front, rest, a, Run::Blanks);
        let b = ini::run_end(front, a, Run::Blanks);
        assert(s[b] == front[b]);
        if front[b] == '=' {
            assert(b + 1 < front.len());
            lemma_run_local(front, rest, b + 1, Run::Blanks);
            let c = ini::run_end(front, b + 1, Run::Blanks);
            lemma_value_local(front, rest, c);
            let d = ini::value_end(front, c);
            lemma_close_local(front, rest, d);
            assert(s.subrange(i, a) =~= front.subrange(i, a));
            assert(s.subrange(c, d) =~= front.subrange(c, d));
        }
    }
}

/// The lines of a text that goes on after a line feed are those of its start
/// and those of what follows.
proof fn lemma_lines_local(front: Seq<char>, rest: Seq<char>, i: int)
    requires
        0 <= i <= front.len(),
        front.len() == 0 || front.last() == '\n',
        ini::lines_from(front, i) is Some,
    ensures
        ini::lines_from(front + rest, i) == match ini::lines_from(
            front + rest,
            front.len() as int,
        ) {
            Some(more) => Some(ini::lines_from(front, i)->Some_0 + more),
            None => None,
        },
        ini::first_bad_line(front + rest, i) == ini::first_bad_line(
            front + rest,
            front.len() as int,
        ),
    decreases front.len() - i,
{
    let s = front + rest;
    if i < front.len() {
        let (line, next) = ini::line_at(front, i)->Some_0;
        lemma_line_local(front, rest, i);
        lemma_lines_local(front, rest, next);
        if let Some(more) = ini::lines_from(s, front.len() as int) {
            let later = ini::lines_from(front, next)->Some_0;
            assert(seq![line] + (later + more) =~= seq![line] + later + more);
        }
    } else if let Some(more) = ini::lines_from(s, front.len() as int) {
        assert(Seq::<LineView>::empty() + more =~= more);
    }
}

/// What follows a document with a line feed at its end is read line by line.
proof fn lemma_written_after(front: Seq<char>, written: Seq<Written>)
    requires
        ini::parsed_ini(front) is Some,
        front.len() == 0 || front.last() == '\n',
        forall|j: int| 0 <= j < written.len() ==> (#[trigger] written[j]).is_proper(),
    ensures
        ini::lines_from(front + ini_laws::document(written), 0) == Some(
            ini::lines_from(front, 0)->Some_0 + ini_laws::lines_of(written),
        ),
{
    let s = front + ini_laws::document(written);
    lemma_lines_local(front, ini_laws::document(written), 0);
    ini_laws::lemma_lines_read(s, front.len() as int, written);
}

/// The document of one line.
proof fn lemma_one_line(w: Written)
    ensures
        ini_laws::document(seq![w]) == w.text(),
        ini_laws::lines_of(seq![w]) == seq![w.line],
{
    assert(seq![w].drop_first() =~= Seq::<Written>::empty());
    assert(ini_laws::document(Seq::<Written>::empty()) =~= Seq::<char>::empty());
    assert(ini_laws::document(seq![w]) =~= w.text());
    assert(ini_laws::lines_of(seq![w]) =~= seq![w.line]);
}

/// A line as it is written ends with a line feed.
proof fn lemma_ends_with_line_feed(w: Written)
    requires
        w.is_proper(),
    ensures
        w.text().len() > 0,
        w.text().last() == '\n',
{
    let close = w.close();
    assert(close.len() > 0 && close.last() == w.newline.last());
    match w.line {
        LineView::Header { name } => {
            let head = seq!['['] + w.inner + name + seq![']'];
            assert(w.text() == head + close);
            assert((head + close).last() == close.last());
        },
        LineView::Pair { key, value } => {
            let head = key + w.inner + seq!['='] + w.outer + value;
            assert(w.text() == head + close);
            assert((head + close).last() == close.last());
        },
        LineView::Empty => {},
    }
}

/// What one more line does to a document with a line feed at its end.
#[verifier::rlimit(30)]
proof fn lemma_one_line_more(front: Seq<char>, w: Written)
    requires
        ini::parsed_ini(front) is Some,
        front.len() == 0 || front.last() == '\n',
        w.is_proper(),
    ensures
        ini::lines_from(front + w.text(), 0) == Some(
            ini::lines_from(front, 0)->Some_0.push(w.line),
        ),
        ini::parsed_ini(front + w.text()) is Some,
        ini::after_lines(ini::lines_from(front + w.text(), 0)->Some_0) == ini::after_line(
            ini::after_lines(ini::lines_from(front, 0)->Some_0),
            w.line,
        ),
        (front + w.text()).len() > 0,
        (front + w.text()).last() == '\n',
{
    let lines = ini::lines_from(front, 0)->Some_0;
    lemma_one_line(w);
    lemma_written_after(front, seq![w]);
    assert(lines + seq![w.line] =~= lines.push(w.line));
    assert(lines.push(w.line).drop_last() =~= lines);
    assert(lines.push(w.line).last() == w.line);
    lemma_ends_with_line_feed(w);
    assert((front + w.text()).last() == w.text().last());
}

/// The section that the next key goes to is there.
proof fn lemma_current_is_there(lines: Seq<LineView>)
    ensures
        ini::after_lines(lines).sections.contains_key(ini::after_lines(lines).current),
    decreases lines.len(),
{
    if lines.len() > 0 {
        lemma_current_is_there(lines.drop_last());
    }
}

/// A header as it is written.
spec fn written_header(
    inner: Seq<char>,
    name: Seq<char>,
    gap: Seq<char>,
    comment: Seq<char>,
    newline: Seq<char>,
) -> Written {
    Written {
        line: LineView::Header { name },
        inner,
        outer: Seq::empty(),
        gap,
        comment,
        newline,
    }
}

/// A header in its parts.
proof fn lemma_written_header(
    inner: Seq<char>,
    name: Seq<char>,
    gap: Seq<char>,
    comment: Seq<char>,
    newline: Seq<char>,
)
    requires
        name.len() > 0 && name[0] != ' ' && name[0] != '\t',
        !name.contains(']'),
        forall|i: int| 0 <= i < inner.len() ==> #[trigger] inner[i] == ' ' || inner[i] == '\t',
        forall|i: int| 0 <= i < gap.len() ==> #[trigger] gap[i] == ' ' || gap[i] == '\t',
        comment.len() > 0 ==> comment[0] == ';' || comment[0] == '#',
        forall|i: int| 0 <= i < comment.len() ==> #[trigger] comment[i] != '\n' && comment[i] != '\r',
        newline == seq!['\n'] || newline == seq!['\r', '\n'],
    ensures
        written_header(inner, name, gap, comment, newline).is_proper(),
        written_header(inner, name, gap, comment, newline).line == (LineView::Header { name }),
        written_header(inner, name, gap, comment, newline).text() == seq!['['] + inner + name + seq![
            ']',
        ] + gap + comment + newline,
{
    let w = written_header(inner, name, gap, comment, newline);
    assert(w.text() =~= seq!['['] + inner + name + seq![']'] + gap + comment + newline);
}

/// A pair as it is written.
spec fn written_pair(
    key: Seq<char>,
    before: Seq<char>,
    after: Seq<char>,
    value: Seq<char>,
    end_gap: Seq<char>,
    end_comment: Seq<char>,
    end_newline: Seq<char>,
) -> Written {
    Written {
        line: LineView::Pair { key, value },
        inner: before,
        outer: after,
        gap: end_gap,
        comment: end_comment,
        newline: end_newline,
    }
}

/// A pair in its parts.
proof fn lemma_written_pair(
    key: Seq<char>,
    before: Seq<char>,
    after: Seq<char>,
    value: Seq<char>,
    end_gap: Seq<char>,
    end_comment: Seq<char>,
    end_newline: Seq<char>,
)
    requires
        key.len() > 0,
        'a' <= key[0] <= 'z' || 'A' <= key[0] <= 'Z' || key[0] == '_',
        forall|i: int|
            0 <= i < key.len() ==> 'a' <= #[trigger] key[i] <= 'z' || 'A' <= key[i] <= 'Z' || '0'
                <= key[i] <= '9' || key[i] == '_' || key[i] == '.' || key[i] == '-',
        forall|i: int|
            0 <= i < value.len() ==> #[trigger] value[i] != ';' && value[i] != '#' && value[i] != '\n'
                && value[i] != '\r',
        value.len() > 0 ==> value[0] != ' ' && value[0] != '\t' && value.last() != ' '
            && value.last() != '\t',
        forall|i: int| 0 <= i < before.len() ==> #[trigger] before[i] == ' ' || before[i] == '\t',
        forall|i: int| 0 <= i < after.len() ==> #[trigger] after[i] == ' ' || after[i] == '\t',
        forall|i: int| 0 <= i < end_gap.len() ==> #[trigger] end_gap[i] == ' ' || end_gap[i] == '\t',
        end_comment.len() > 0 ==> end_comment[0] == ';' || end_comment[0] == '#',
        forall|i: int| 0 <= i < end_comment.len() ==> #[trigger] end_comment[i] != '\n' && end_comment[i] != '\r',
        end_newline == seq!['\n'] || end_newline == seq!['\r', '\n'],
    ensures
        written_pair(key, before, after, value, end_gap, end_comment, end_newline).is_proper(),
        written_pair(key, before, after, value, end_gap, end_comment, end_newline).line == (
        LineView::Pair { key, value }),
        written_pair(key, before, after, value, end_gap, end_comment, end_newline).text() == key
            + before + seq!['='] + after + value + end_gap + end_comment + end_newline,
{
    let w = written_pair(key, before, after, value, end_gap, end_comment, end_newline);
    assert(w.text() =~= key + before + seq!['='] + after + value + end_gap + end_comment
        + end_newline);
}

// ---------------------------------------------------------------------------
// What is written is what is read
// ---------------------------------------------------------------------------

/// A text without characters is a document with the empty section `default`.
pub proof fn law_empty_document()
    ensures
        ini::parsed_ini(Seq::empty()) == Some(
            Map::<Seq<char>, Map<Seq<char>, Seq<char>>>::empty().insert("default"@, Map::empty()),
        ),
{
}

/// After any document, the header `[name]` opens the section `name`, without
/// the white space at its ends, where it is not there yet, and changes nothing
/// else. Blanks after `[` and after `]`, a comment, and either kind of line
/// break make no difference.
#[verifier::rlimit(50)]
pub proof fn law_header_opens_its_section(
    front: Seq<char>,
    inner: Seq<char>,
    name: Seq<char>,
    gap: Seq<char>,
    comment: Seq<char>,
    newline: Seq<char>,
)
    requires
        ini::parsed_ini(front) is Some,
        front.len() == 0 || front.last() == '\n',
        name.len() > 0 && name[0] != ' ' && name[0] != '\t',
        !name.contains(']'),
        forall|i: int| 0 <= i < inner.len() ==> #[trigger] inner[i] == ' ' || inner[i] == '\t',
        forall|i: int| 0 <= i < gap.len() ==> #[trigger] gap[i] == ' ' || gap[i] == '\t',
        comment.len() > 0 ==> comment[0] == ';' || comment[0] == '#',
        forall|i: int| 0 <= i < comment.len() ==> #[trigger] comment[i] != '\n' && comment[i] != '\r',
        newline == seq!['\n'] || newline == seq!['\r', '\n'],
    ensures
        ({
            let m = ini::parsed_ini(front)->Some_0;
            let section = text::trimmed(name);
            ini::parsed_ini(
                front + (seq!['['] + inner + name + seq![']'] + gap + comment + newline),
            ) == Some(
                if m.contains_key(section) {
                    m
                } else {
                    m.insert(section, Map::empty())
                },
            )
        }),
{
    let h = written_header(inner, name, gap, comment, newline);
    lemma_written_header(inner, name, gap, comment, newline);
    lemma_one_line_more(front, h);
}

/// What a header and a pair after it do.
proof fn lemma_header_and_pair(front: Seq<char>, h: Written, p: Written)
    requires
        ini::parsed_ini(front) is Some,
        front.len() == 0 || front.last() == '\n',
        h.is_proper(),
        h.line is Header,
        p.is_proper(),
        p.line is Pair,
    ensures
        ({
            let m = ini::parsed_ini(front)->Some_0;
            let section = text::trimmed(h.line->name);
            let known = if m.contains_key(section) {
                m[section]
            } else {
                Map::empty()
            };
            ini::parsed_ini(front + h.text() + p.text()) == Some(
                m.insert(section, known.insert(p.line->key, p.line->value)),
            )
        }),
{
    lemma_one_line_more(front, h);
    lemma_one_line_more(front + h.text(), p);
    let m = ini::parsed_ini(front)->Some_0;
    let section = text::trimmed(h.line->name);
    let known = if m.contains_key(section) {
        m[section]
    } else {
        Map::empty()
    };
    assert(ini::parsed_ini(front + h.text() + p.text())->Some_0 =~= m.insert(
        section,
        known.insert(p.line->key, p.line->value),
    ));
}

/// After any document, a header `[name]` and a line `key = value` give the key
/// that value in the section `name`, without the white space at the ends of the
/// name, and change nothing else. Blanks, comments and the kind of line break
/// make no difference.
#[verifier::rlimit(50)]
pub proof fn law_key_stands_under_its_header(
    front: Seq<char>,
    inner: Seq<char>,
    name: Seq<char>,
    gap: Seq<char>,
    comment: Seq<char>,
    newline: Seq<char>,
    key: Seq<char>,
    before: Seq<char>,
    after: Seq<char>,
    value: Seq<char>,
    end_gap: Seq<char>,
    end_comment: Seq<char>,
    end_newline: Seq<char>,
)
    requires
        ini::parsed_ini(front) is Some,
        front.len() == 0 || front.last() == '\n',
        name.len() > 0 && name[0] != ' ' && name[0] != '\t',
        !name.contains(']'),
        forall|i: int| 0 <= i < inner.len() ==> #[trigger] inner[i] == ' ' || inner[i] == '\t',
        forall|i: int| 0 <= i < gap.len() ==> #[trigger] gap[i] == ' ' || gap[i] == '\t',
        comment.len() > 0 ==> comment[0] == ';' || comment[0] == '#',
        forall|i: int| 0 <= i < comment.len() ==> #[trigger] comment[i] != '\n' && comment[i] != '\r',
        newline == seq!['\n'] || newline == seq!['\r', '\n'],
        key.len() > 0,
        'a' <= key[0] <= 'z' || 'A' <= key[0] <= 'Z' || key[0] == '_',
        forall|i: int|
            0 <= i < key.len() ==> 'a' <= #[trigger] key[i] <= 'z' || 'A' <= key[i] <= 'Z' || '0'
                <= key[i] <= '9' || key[i] == '_' || key[i] == '.' || key[i] == '-',
        forall|i: int|
            0 <= i < value.len() ==> #[trigger] value[i] != ';' && value[i] != '#' && value[i] != '\n'
                && value[i] != '\r',
        value.len() > 0 ==> value[0] != ' ' && value[0] != '\t' && value.last() != ' '
            && value.last() != '\t',
        forall|i: int| 0 <= i < before.len() ==> #[trigger] before[i] == ' ' || before[i] == '\t',
        forall|i: int| 0 <= i < after.len() ==> #[trigger] after[i] == ' ' || after[i] == '\t',
        forall|i: int| 0 <= i < end_gap.len() ==> #[trigger] end_gap[i] == ' ' || end_gap[i] == '\t',
        end_comment.len() > 0 ==> end_comment[0] == ';' || end_comment[0] == '#',
        forall|i: int| 0 <= i < end_comment.len() ==> #[trigger] end_comment[i] != '\n' && end_comment[i] != '\r',
        end_newline == seq!['\n'] || end_newline == seq!['\r', '\n'],
    ensures
        ({
            let m = ini::parsed_ini(front)->Some_0;
            let section = text::trimmed(name);
            let known = if m.contains_key(section) {
                m[section]
            } else {
                Map::empty()
            };
            ini::parsed_ini(
                front + (seq!['['] + inner + name + seq![']'] + gap + comment + newline)
                    + (key + before + seq!['='] + after + value + end_gap + end_comment + end_newline),
            ) == Some(m.insert(section, known.insert(key, value)))
        }),
{
    let h = written_header(inner, name, gap, comment, newline);
    lemma_written_header(inner, name, gap, comment, newline);
    let p = written_pair(key, before, after, value, end_gap, end_comment, end_newline);
    lemma_written_pair(key, before, after, value, end_gap, end_comment, end_newline);
    lemma_header_and_pair(front, h, p);
}

/// Where no character of a text is `[`, none of its lines is a header.
proof fn lemma_no_headers(s: Seq<char>, i: int)
    requires
        0 <= i,
        forall|j: int| i <= j < s.len() ==> #[trigger] s[j] != '[',
    ensures
        ini::lines_from(s, i) matches Some(lines) ==> forall|j: int|
            0 <= j < lines.len() ==> !(#[trigger] lines[j] is Header),
    decreases s.len() - i,
{
    if i < s.len() {
        assert(s[i] != '[');
        assert(ini::header_at(s, i) is None);
        match ini::line_at(s, i) {
            Some((line, next)) => {
                assert(!(line is Header));
                if i < next <= s.len() {
                    lemma_no_headers(s, next);
                    if let Some(rest) = ini::lines_from(s, next) {
                        let all = seq![line] + rest;
                        assert forall|j: int| 0 <= j < all.len() implies !(#[trigger] all[j] is
                            Header) by {
                            if j > 0 {
                                assert(all[j] == rest[j - 1]);
                            }
                        }
                    }
                }
            },
            None => {},
        }
    }
}

/// Lines without a header leave the section as it is that the next key goes to.
proof fn lemma_current_stays(lines: Seq<LineView>, more: Seq<LineView>)
    requires
        forall|j: int| 0 <= j < more.len() ==> !(#[trigger] more[j] is Header),
    ensures
        ini::after_lines(lines + more).current == ini::after_lines(lines).current,
    decreases more.len(),
{
    if more.len() == 0 {
        assert(lines + more =~= lines);
    } else {
        let shorter = more.drop_last();
        assert forall|j: int| 0 <= j < shorter.len() implies !(#[trigger] shorter[j] is
            Header) by {
            assert(shorter[j] == more[j]);
        }
        lemma_current_stays(lines, shorter);
        assert((lines + more).drop_last() =~= lines + shorter);
        assert((lines + more).last() == more.last());
        assert(!(more[more.len() - 1] is Header));
    }
}

/// Lines without `[` leave the section as it is that the next key goes to.
proof fn lemma_middle(start: Seq<char>, middle: Seq<char>)
    requires
        ini::parsed_ini(start) is Some,
        start.len() > 0,
        start.last() == '\n',
        !middle.contains('['),
        middle.len() == 0 || middle.last() == '\n',
        ini::parsed_ini(start + middle) is Some,
    ensures
        (start + middle).len() > 0,
        (start + middle).last() == '\n',
        ini::after_lines(ini::lines_from(start + middle, 0)->Some_0).current == ini::after_lines(
            ini::lines_from(start, 0)->Some_0,
        ).current,
{
    let whole = start + middle;
    let n = start.len() as int;
    let lines = ini::lines_from(start, 0)->Some_0;
    lemma_lines_local(start, middle, 0);
    let more = ini::lines_from(whole, n)->Some_0;
    assert(ini::lines_from(whole, 0) == Some(lines + more));
    assert forall|j: int| n <= j < whole.len() implies #[trigger] whole[j] != '[' by {
        assert(whole[j] == middle[j - n]);
        assert(middle.contains(middle[j - n]));
    }
    lemma_no_headers(whole, n);
    lemma_current_stays(lines, more);
    if middle.len() == 0 {
        assert(whole =~= start);
    } else {
        assert(whole.last() == middle.last());
    }
}

/// After a header and lines without `[`, the next key goes to the section of
/// the header.
proof fn lemma_after_header(front: Seq<char>, h: Written, middle: Seq<char>)
    requires
        ini::parsed_ini(front) is Some,
        front.len() == 0 || front.last() == '\n',
        h.is_proper(),
        h.line is Header,
        !middle.contains('['),
        middle.len() == 0 || middle.last() == '\n',
        ini::parsed_ini(front + h.text() + middle) is Some,
    ensures
        ({
            let whole = front + h.text() + middle;
            let after = ini::after_lines(ini::lines_from(whole, 0)->Some_0);
            &&& whole.len() > 0
            &&& whole.last() == '\n'
            &&& after.current == text::trimmed(h.line->name)
            &&& after.sections.contains_key(after.current)
        }),
{
    lemma_one_line_more(front, h);
    lemma_middle(front + h.text(), middle);
    lemma_current_is_there(ini::lines_from(front + h.text() + middle, 0)->Some_0);
}

/// A key goes to the section of the last header before it: after any document,
/// a header `[name]` and further lines without `[`, a line `key = value` gives
/// the key that value in the section `name`, and changes nothing else.
#[verifier::rlimit(50)]
pub proof fn law_header_holds_until_the_next(
    front: Seq<char>,
    inner: Seq<char>,
    name: Seq<char>,
    gap: Seq<char>,
    comment: Seq<char>,
    newline: Seq<char>,
    middle: Seq<char>,
    key: Seq<char>,
    before: Seq<char>,
    after: Seq<char>,
    value: Seq<char>,
    end_gap: Seq<char>,
    end_comment: Seq<char>,
    end_newline: Seq<char>,
)
    requires
        ini::parsed_ini(front) is Some,
        front.len() == 0 || front.last() == '\n',
        name.len() > 0 && name[0] != ' ' && name[0] != '\t',
        !name.contains(']'),
        forall|i: int| 0 <= i < inner.len() ==> #[trigger] inner[i] == ' ' || inner[i] == '\t',
        forall|i: int| 0 <= i < gap.len() ==> #[trigger] gap[i] == ' ' || gap[i] == '\t',
        comment.len() > 0 ==> comment[0] == ';' || comment[0] == '#',
        forall|i: int| 0 <= i < comment.len() ==> #[trigger] comment[i] != '\n' && comment[i] != '\r',
        newline == seq!['\n'] || newline == seq!['\r', '\n'],
        !middle.contains('['),
        middle.len() == 0 || middle.last() == '\n',
        ini::parsed_ini(
            front + (seq!['['] + inner + name + seq![']'] + gap + comment + newline)
                + middle,
        ) is Some,
        key.len() > 0,
        'a' <= key[0] <= 'z' || 'A' <= key[0] <= 'Z' || key[0] == '_',
        forall|i: int|
            0 <= i < key.len() ==> 'a' <= #[trigger] key[i] <= 'z' || 'A' <= key[i] <= 'Z' || '0'
                <= key[i] <= '9' || key[i] == '_' || key[i] == '.' || key[i] == '-',
        forall|i: int|
            0 <= i < value.len() ==> #[trigger] value[i] != ';' && value[i] != '#' && value[i] != '\n'
                && value[i] != '\r',
        value.len() > 0 ==> value[0] != ' ' && value[0] != '\t' && value.last() != ' '
            && value.last() != '\t',
        forall|i: int| 0 <= i < before.len() ==> #[trigger] before[i] == ' ' || before[i] == '\t',
        forall|i: int| 0 <= i < after.len() ==> #[trigger] after[i] == ' ' || after[i] == '\t',
        forall|i: int| 0 <= i < end_gap.len() ==> #[trigger] end_gap[i] == ' ' || end_gap[i] == '\t',
        end_comment.len() > 0 ==> end_comment[0] == ';' || end_comment[0] == '#',
        forall|i: int| 0 <= i < end_comment.len() ==> #[trigger] end_comment[i] != '\n' && end_comment[i] != '\r',
        end_newline == seq!['\n'] || end_newline == seq!['\r', '\n'],
    ensures
        ({
            let text = front + (seq!['['] + inner + name + seq![']'] + gap + comment + newline)
                + middle;
            let m = ini::parsed_ini(text)->Some_0;
            let section = text::trimmed(name);
            &&& m.contains_key(section)
            &&& ini::parsed_ini(
                text + (key + before + seq!['='] + after + value + end_gap + end_comment + end_newline),
            ) == Some(m.insert(section, m[section].insert(key, value)))
        }),
{
    let h = written_header(inner, name, gap, comment, newline);
    lemma_written_header(inner, name, gap, comment, newline);
    let p = written_pair(key, before, after, value, end_gap, end_comment, end_newline);
    lemma_written_pair(key, before, after, value, end_gap, end_comment, end_newline);
    let start = front + h.text();
    let text = start + middle;
    lemma_after_header(front, h, middle);
    lemma_one_line_more(text, p);
}

/// Keys before the first header go to the section `default`, which is then the
/// only one.
#[verifier::rlimit(50)]
pub proof fn law_keys_before_headers_are_default(
    front: Seq<char>,
    key: Seq<char>,
    before: Seq<char>,
    after: Seq<char>,
    value: Seq<char>,
    end_gap: Seq<char>,
    end_comment: Seq<char>,
    end_newline: Seq<char>,
)
    requires
        ini::parsed_ini(front) is Some,
        front.len() == 0 || front.last() == '\n',
        !front.contains('['),
        key.len() > 0,
        'a' <= key[0] <= 'z' || 'A' <= key[0] <= 'Z' || key[0] == '_',
        forall|i: int|
            0 <= i < key.len() ==> 'a' <= #[trigger] key[i] <= 'z' || 'A' <= key[i] <= 'Z' || '0'
                <= key[i] <= '9' || key[i] == '_' || key[i] == '.' || key[i] == '-',
        forall|i: int|
            0 <= i < value.len() ==> #[trigger] value[i] != ';' && value[i] != '#' && value[i] != '\n'
                && value[i] != '\r',
        value.len() > 0 ==> value[0] != ' ' && value[0] != '\t' && value.last() != ' '
            && value.last() != '\t',
        forall|i: int| 0 <= i < before.len() ==> #[trigger] before[i] == ' ' || before[i] == '\t',
        forall|i: int| 0 <= i < after.len() ==> #[trigger] after[i] == ' ' || after[i] == '\t',
        forall|i: int| 0 <= i < end_gap.len() ==> #[trigger] end_gap[i] == ' ' || end_gap[i] == '\t',
        end_comment.len() > 0 ==> end_comment[0] == ';' || end_comment[0] == '#',
        forall|i: int| 0 <= i < end_comment.len() ==> #[trigger] end_comment[i] != '\n' && end_comment[i] != '\r',
        end_newline == seq!['\n'] || end_newline == seq!['\r', '\n'],
    ensures
        ({
            let m = ini::parsed_ini(front)->Some_0;
            &&& forall|name: Seq<char>| #[trigger] m.contains_key(name) == (name == "default"@)
            &&& ini::parsed_ini(
                front + (key + before + seq!['='] + after + value + end_gap + end_comment + end_newline),
            ) == Some(m.insert("default"@, m["default"@].insert(key, value)))
        }),
{
    let p = written_pair(key, before, after, value, end_gap, end_comment, end_newline);
    lemma_written_pair(key, before, after, value, end_gap, end_comment, end_newline);
    let lines = ini::lines_from(front, 0)->Some_0;
    assert forall|j: int| 0 <= j < front.len() implies #[trigger] front[j] != '[' by {
        assert(front.contains(front[j]));
    }
    lemma_no_headers(front, 0);
    ini_laws::law_first_keys_are_default(lines);
    lemma_one_line_more(front, p);
    let m = ini::parsed_ini(front)->Some_0;
    assert forall|name: Seq<char>| #[trigger] m.contains_key(name) == (name == "default"@) by {
        assert(m.dom().contains(name) == (name == "default"@));
    }
}

/// An empty line and a line with a comment change nothing.
pub proof fn law_comments_change_nothing(
    front: Seq<char>,
    gap: Seq<char>,
    comment: Seq<char>,
    newline: Seq<char>,
)
    requires
        ini::parsed_ini(front) is Some,
        front.len() == 0 || front.last() == '\n',
        forall|i: int| 0 <= i < gap.len() ==> #[trigger] gap[i] == ' ' || gap[i] == '\t',
        comment.len() > 0 ==> comment[0] == ';' || comment[0] == '#',
        forall|i: int| 0 <= i < comment.len() ==> #[trigger] comment[i] != '\n' && comment[i] != '\r',
        newline == seq!['\n'] || newline == seq!['\r', '\n'],
    ensures
        ini::parsed_ini(front + (gap + comment + newline)) == ini::parsed_ini(front),
{
    let w = Written {
        line: LineView::Empty,
        inner: Seq::empty(),
        outer: Seq::empty(),
        gap,
        comment,
        newline,
    };
    assert(w.is_proper());
    lemma_one_line_more(front, w);
}

// ---------------------------------------------------------------------------
// The last line
// ---------------------------------------------------------------------------

/// A run ends where it did, but for a section name that was not closed.
proof fn lemma_run_before_feed(s: Seq<char>, i: int, run: Run)
    requires
        0 <= i <= s.len(),
    ensures
        run != Run::Name || ini::run_end(s, i, run) < s.len() ==> ini::run_end(
            s.push('\n'),
            i,
            run,
        ) == ini::run_end(s, i, run),
        run == Run::Name && ini::run_end(s, i, run) >= s.len() ==> ini::run_end(
            s.push('\n'),
            i,
            run,
        ) == s.len() + 1,
        i <= ini::run_end(s, i, run) <= s.len(),
    decreases s.len() - i,
{
    let t = s.push('\n');
    if i < s.len() {
        assert(t[i] == s[i]);
        if ini::takes(run, s[i]) {
            lemma_run_before_feed(s, i + 1, run);
        }
    } else {
        assert(t[i] == '\n');
        assert(ini::run_end(t, i + 1, run) == i + 1);
    }
}

/// A line ends where it did, but that the last one has a line feed more.
proof fn lemma_close_before_feed(s: Seq<char>, i: int)
    requires
        0 <= i <= s.len(),
        s.len() > 0,
        s.last() != '\n' && s.last() != '\r',
    ensures
        ini::line_close(s.push('\n'), i) == match ini::line_close(s, i) {
            Some(next) => Some(
                if next < s.len() {
                    next
                } else {
                    next + 1
                },
            ),
            None => None,
        },
        ini::line_close(s, i) matches Some(next) ==> i <= next <= s.len(),
        ini::value_stops(s.push('\n'), i) == ini::value_stops(s, i),
{
    let t = s.push('\n');
    lemma_run_before_feed(s, i, Run::Blanks);
    let j = ini::run_end(s, i, Run::Blanks);
    if j < s.len() {
        assert(t[j] == s[j]);
        if ini::is_comment_mark(s[j]) {
            lemma_run_before_feed(s, j, Run::Rest);
        }
        let k = if ini::is_comment_mark(s[j]) {
            ini::run_end(s, j, Run::Rest)
        } else {
            j
        };
        if k < s.len() {
            assert(t[k] == s[k]);
            if k + 1 < s.len() {
                assert(t[k + 1] == s[k + 1]);
            }
        } else {
            assert(t[k] == '\n');
        }
    } else {
        assert(t[j] == '\n');
    }
}

/// A value ends where it did.
proof fn lemma_value_before_feed(s: Seq<char>, i: int)
    requires
        0 <= i <= s.len(),
        s.len() > 0,
        s.last() != '\n' && s.last() != '\r',
    ensures
        ini::value_end(s.push('\n'), i) == ini::value_end(s, i),
        i <= ini::value_end(s, i) <= s.len(),
    decreases s.len() - i,
{
    lemma_close_before_feed(s, i);
    if i < s.len() {
        if !ini::value_stops(s, i) {
            lemma_value_before_feed(s, i + 1);
        }
    } else {
        assert(ini::run_end(s, i, Run::Blanks) == i);
        assert(ini::value_stops(s, i));
    }
}

/// A line is what it was.
proof fn lemma_line_before_feed(s: Seq<char>, i: int)
    requires
        0 <= i < s.len(),
        s.last() != '\n' && s.last() != '\r',
    ensures
        ini::line_at(s.push('\n'), i) == match ini::line_at(s, i) {
            Some((line, next)) => Some(
                (
                    line,
                    if next < s.len() {
                        next
                    } else {
                        next + 1
                    },
                ),
            ),
            None => None,
        },
        ini::line_at(s, i) matches Some((line, next)) ==> next <= s.len(),
{
    let t = s.push('\n');
    assert(t[i] == s[i]);
    lemma_close_before_feed(s, i);
    if s[i] == '[' {
        lemma_run_before_feed(s, i + 1, Run::Blanks);
        let a = ini::run_end(s, i + 1, Run::Blanks);
        lemma_run_before_feed(s, a, Run::Name);
        let b = ini::run_end(s, a, Run::Name);
        if a < b < s.len() {
            lemma_close_before_feed(s, b + 1);
            assert(t.subrange(a, b) =~= s.subrange(a, b));
        }
    } else if ini::is_key_start(s[i]) {
        lemma_run_before_feed(s, i + 1, Run::Key);
        let a = ini::run_end(s, i + 1, Run::Key);
        lemma_run_before_feed(s, a, Run::Blanks);
        let b = ini::run_end(s, a, Run::Blanks);
        if b < s.len() {
            assert(t[b] == s[b]);
            if s[b] == '=' {
                lemma_run_before_feed(s, b + 1, Run::Blanks);
                let c = ini::run_end(s, b + 1, Run::Blanks);
                lemma_value_before_feed(s, c);
                let d = ini::value_end(s, c);
                lemma_close_before_feed(s, d);
                assert(t.subrange(i, a) =~= s.subrange(i, a));
                assert(t.subrange(c, d) =~= s.subrange(c, d));
            }
        } else {
            assert(t[b] == '\n');
        }
    }
}

/// The lines are what they were.
proof fn lemma_lines_before_feed(s: Seq<char>, i: int)
    requires
        0 <= i < s.len(),
        s.last() != '\n' && s.last() != '\r',
    ensures
        ini::lines_from(s.push('\n'), i) == ini::lines_from(s, i),
    decreases s.len() - i,
{
    let t = s.push('\n');
    lemma_line_before_feed(s, i);
    if let Some((line, next)) = ini::line_at(s, i) {
        if i < next < s.len() {
            lemma_lines_before_feed(s, next);
        } else if next == s.len() {
            assert(ini::lines_from(s, next) == Some(Seq::<LineView>::empty()));
            assert(ini::lines_from(t, next + 1) == Some(Seq::<LineView>::empty()));
        }
    }
}

/// The last line counts with a line feed at its end and without one.
pub proof fn law_last_line_feed_makes_no_difference(s: Seq<char>)
    requires
        s.len() > 0,
        s.last() != '\n' && s.last() != '\r',
    ensures
        ini::parsed_ini(s.push('\n')) == ini::parsed_ini(s),
{
    lemma_lines_before_feed(s, 0);
}

// ---------------------------------------------------------------------------
// What is no document
// ---------------------------------------------------------------------------

/// A line that is none makes the whole text no document.
proof fn lemma_bad_line(front: Seq<char>, rest: Seq<char>)
    requires
        ini::parsed_ini(front) is Some,
        front.len() == 0 || front.last() == '\n',
        rest.len() > 0,
        ini::line_at(front + rest, front.len() as int) is None,
    ensures
        ini::parsed_ini(front + rest) is None,
        ini::first_bad_line(front + rest, 0) == front.len(),
{
    lemma_lines_local(front, rest, 0);
}

/// Where a part of `rest` stands in the whole text.
proof fn lemma_rest_stands(front: Seq<char>, rest: Seq<char>)
    ensures
        ini_laws::stands(front + rest, front.len() as int, rest),
{
}

/// Blanks stand before something else.
proof fn lemma_blanks_stand(s: Seq<char>, i: int, blanks: Seq<char>)
    requires
        ini_laws::stands(s, i, blanks),
        forall|i: int| 0 <= i < blanks.len() ==> #[trigger] blanks[i] == ' ' || blanks[i] == '\t',
        i + blanks.len() < s.len() ==> s[i + blanks.len()] != ' ' && s[i + blanks.len()] != '\t',
    ensures
        ini::run_end(s, i, Run::Blanks) == i + blanks.len(),
{
    assert forall|k: int| i <= k < i + blanks.len() implies ini::takes(
        Run::Blanks,
        #[trigger] s[k],
    ) by {
        assert(blanks[k - i] == ' ' || blanks[k - i] == '\t');
    }
    ini_laws::lemma_run_to(s, i, i + blanks.len(), Run::Blanks);
}

/// After any document, a line that starts with something else than a header, a
/// key, a comment, a blank or a line break makes the whole text no document,
/// and so do blanks before anything but a comment or a line break. The error is
/// at the start of that line.
pub proof fn law_stray_text_is_refused(front: Seq<char>, blanks: Seq<char>, tail: Seq<char>)
    requires
        ini::parsed_ini(front) is Some,
        front.len() == 0 || front.last() == '\n',
        forall|i: int| 0 <= i < blanks.len() ==> #[trigger] blanks[i] == ' ' || blanks[i] == '\t',
        tail.len() > 0,
        tail[0] != ' ' && tail[0] != '\t' && tail[0] != ';' && tail[0] != '#' && tail[0] != '\n'
            && tail[0] != '\r',
        blanks.len() == 0 ==> tail[0] != '[' && tail[0] != '_' && !('a' <= tail[0] <= 'z') && !('A'
            <= tail[0] <= 'Z'),
    ensures
        ini::parsed_ini(front + (blanks + tail)) is None,
        ini::first_bad_line(front + (blanks + tail), 0) == front.len(),
{
    let s = front + (blanks + tail);
    let n = front.len() as int;
    lemma_rest_stands(front, blanks + tail);
    ini_laws::lemma_stands_split(s, n, blanks, tail);
    assert(s[n + blanks.len()] == tail[0]);
    lemma_blanks_stand(s, n, blanks);
    if blanks.len() > 0 {
        assert(s[n] == blanks[0]);
        assert(blanks[0] == ' ' || blanks[0] == '\t');
    }
    lemma_bad_line(front, blanks + tail);
}

/// After any document, a key without `=` after it makes the whole text no
/// document. The error is at the start of that line.
pub proof fn law_key_without_value_is_refused(
    front: Seq<char>,
    key: Seq<char>,
    blanks: Seq<char>,
    tail: Seq<char>,
)
    requires
        ini::parsed_ini(front) is Some,
        front.len() == 0 || front.last() == '\n',
        key.len() > 0,
        'a' <= key[0] <= 'z' || 'A' <= key[0] <= 'Z' || key[0] == '_',
        forall|i: int|
            0 <= i < key.len() ==> 'a' <= #[trigger] key[i] <= 'z' || 'A' <= key[i] <= 'Z' || '0'
                <= key[i] <= '9' || key[i] == '_' || key[i] == '.' || key[i] == '-',
        forall|i: int| 0 <= i < blanks.len() ==> #[trigger] blanks[i] == ' ' || blanks[i] == '\t',
        tail.len() > 0 ==> tail[0] != '=' && tail[0] != ' ' && tail[0] != '\t',
        tail.len() > 0 && blanks.len() == 0 ==> tail[0] != '_' && tail[0] != '.' && tail[0] != '-'
            && !('a' <= tail[0] <= 'z') && !('A' <= tail[0] <= 'Z') && !('0' <= tail[0] <= '9'),
    ensures
        ini::parsed_ini(front + (key + blanks + tail)) is None,
        ini::first_bad_line(front + (key + blanks + tail), 0) == front.len(),
{
    let s = front + (key + blanks + tail);
    let n = front.len() as int;
    let a = n + key.len();
    let b = a + blanks.len();
    lemma_rest_stands(front, key + blanks + tail);
    ini_laws::lemma_stands_split(s, n, key + blanks, tail);
    ini_laws::lemma_stands_split(s, n, key, blanks);
    assert(s.len() == b + tail.len());
    assert(s[n] == key[0]);
    if tail.len() > 0 {
        assert(s[b] == tail[0]);
    }
    if blanks.len() > 0 {
        assert(s[a] == blanks[0]);
        assert(blanks[0] == ' ' || blanks[0] == '\t');
    }
    assert forall|k: int| n + 1 <= k < a implies ini::takes(Run::Key, #[trigger] s[k]) by {
        assert(s[k] == key[k - n]);
    }
    ini_laws::lemma_run_to(s, n + 1, a, Run::Key);
    lemma_blanks_stand(s, a, blanks);
    assert(ini::pair_at(s, n) is None);
    assert(ini::run_end(s, n, Run::Blanks) == n);
    lemma_bad_line(front, key + blanks + tail);
}

/// After any document, a `[` without a `]` after it, and a `[` with only blanks
/// before the next `]`, make the whole text no document. The error is at the
/// start of that line.
pub proof fn law_header_without_name_is_refused(
    front: Seq<char>,
    unclosed: Seq<char>,
    blanks: Seq<char>,
    tail: Seq<char>,
)
    requires
        ini::parsed_ini(front) is Some,
        front.len() == 0 || front.last() == '\n',
        forall|i: int| 0 <= i < blanks.len() ==> #[trigger] blanks[i] == ' ' || blanks[i] == '\t',
        !unclosed.contains(']'),
    ensures
        ini::parsed_ini(front + (seq!['['] + unclosed)) is None,
        ini::first_bad_line(front + (seq!['['] + unclosed), 0) == front.len(),
        ini::parsed_ini(front + (seq!['['] + blanks + seq![']'] + tail)) is None,
        ini::first_bad_line(front + (seq!['['] + blanks + seq![']'] + tail), 0) == front.len(),
{
    let n = front.len() as int;
    let open = seq!['['];
    let s = front + (open + unclosed);
    lemma_rest_stands(front, open + unclosed);
    ini_laws::lemma_stands_split(s, n, open, unclosed);
    assert(s[n] == '[');
    ini_laws::lemma_run_takes(s, n + 1, Run::Blanks);
    let a = ini::run_end(s, n + 1, Run::Blanks);
    assert forall|k: int| a <= k < s.len() implies ini::takes(Run::Name, #[trigger] s[k]) by {
        assert(s[k] == unclosed[k - n - 1]);
        assert(unclosed.contains(unclosed[k - n - 1]));
    }
    ini_laws::lemma_run_to(s, a, s.len() as int, Run::Name);
    assert(ini::run_end(s, n, Run::Blanks) == n);
    lemma_bad_line(front, open + unclosed);

    let shut = seq![']'];
    let t = front + (open + blanks + shut + tail);
    lemma_rest_stands(front, open + blanks + shut + tail);
    ini_laws::lemma_stands_split(t, n, open + blanks + shut, tail);
    ini_laws::lemma_stands_split(t, n, open + blanks, shut);
    ini_laws::lemma_stands_split(t, n, open, blanks);
    assert(t[n] == '[');
    let c = n + 1 + blanks.len();
    assert(t[c] == ']');
    lemma_blanks_stand(t, n + 1, blanks);
    assert(ini::run_end(t, c, Run::Name) == c);
    assert(ini::run_end(t, n, Run::Blanks) == n);
    lemma_bad_line(front, open + blanks + shut + tail);
}

/// After any document, a header with anything but a comment behind it makes the
/// whole text no document. The error is at the start of that line.
pub proof fn law_text_behind_header_is_refused(
    front: Seq<char>,
    inner: Seq<char>,
    name: Seq<char>,
    gap: Seq<char>,
    tail: Seq<char>,
)
    requires
        ini::parsed_ini(front) is Some,
        front.len() == 0 || front.last() == '\n',
        name.len() > 0 && name[0] != ' ' && name[0] != '\t',
        !name.contains(']'),
        forall|i: int| 0 <= i < inner.len() ==> #[trigger] inner[i] == ' ' || inner[i] == '\t',
        forall|i: int| 0 <= i < gap.len() ==> #[trigger] gap[i] == ' ' || gap[i] == '\t',
        tail.len() > 0,
        tail[0] != ' ' && tail[0] != '\t' && tail[0] != ';' && tail[0] != '#' && tail[0] != '\n'
            && tail[0] != '\r',
    ensures
        ini::parsed_ini(front + (seq!['['] + inner + name + seq![']'] + gap + tail)) is None,
        ini::first_bad_line(front + (seq!['['] + inner + name + seq![']'] + gap + tail), 0)
            == front.len(),
{
    let n = front.len() as int;
    let open = seq!['['];
    let shut = seq![']'];
    let rest = open + inner + name + shut + gap + tail;
    let s = front + rest;
    lemma_rest_stands(front, rest);
    ini_laws::lemma_stands_split(s, n, open + inner + name + shut + gap, tail);
    ini_laws::lemma_stands_split(s, n, open + inner + name + shut, gap);
    ini_laws::lemma_stands_split(s, n, open + inner + name, shut);
    ini_laws::lemma_stands_split(s, n, open + inner, name);
    ini_laws::lemma_stands_split(s, n, open, inner);
    let a = n + 1 + inner.len();
    let b = a + name.len();
    let c = b + 1 + gap.len();
    assert(s[n] == '[');
    assert(s[a] == name[0]);
    assert(s[b] == ']');
    assert(s[c] == tail[0]);
    lemma_blanks_stand(s, n + 1, inner);
    assert forall|k: int| a <= k < b implies ini::takes(Run::Name, #[trigger] s[k]) by {
        assert(s[k] == name[k - a]);
        assert(name.contains(name[k - a]));
    }
    ini_laws::lemma_run_to(s, a, b, Run::Name);
    lemma_blanks_stand(s, b + 1, gap);
    assert(ini::line_close(s, b + 1) is None);
    assert(ini::run_end(s, n, Run::Blanks) == n);
    lemma_bad_line(front, rest);
}

} // verus!
