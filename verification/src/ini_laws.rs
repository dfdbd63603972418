//! What is promised of INI documents.

use crate::ini;
use crate::ini::{LineView, Run};
use crate::text;
use vstd::prelude::*;

verus! {

broadcast use vstd::string::group_string_axioms;

// ---------------------------------------------------------------------------
// What a document gives
// ---------------------------------------------------------------------------

/// A key of the grammar.
pub open spec fn is_key(k: Seq<char>) -> bool {
    &&& k.len() > 0
    &&& ini::is_key_start(k[0])
    &&& forall|i: int| 0 <= i < k.len() ==> ini::is_key_char(#[trigger] k[i])
}

/// A value of the grammar: one without comment marks and line breaks, and
/// without blanks at its ends.
pub open spec fn is_value(v: Seq<char>) -> bool {
    &&& forall|i: int|
        0 <= i < v.len() ==> !ini::is_comment_mark(#[trigger] v[i]) && !ini::is_line_break(v[i])
    &&& v.len() > 0 ==> !ini::is_blank(v[0]) && !ini::is_blank(v.last())
}

/// What every document gives: the section `default`, names without white space
/// at their ends, and keys and values of the grammar.
pub open spec fn is_tidy(sections: Map<Seq<char>, Map<Seq<char>, Seq<char>>>) -> bool {
    &&& sections.contains_key("default"@)
    &&& forall|name: Seq<char>| #[trigger]
        sections.contains_key(name) ==> text::trimmed(name) == name
    &&& forall|name: Seq<char>, k: Seq<char>|
        sections.contains_key(name) && #[trigger] sections[name].contains_key(k) ==> is_key(k)
            && is_value(sections[name][k])
}

/// A run holds only what it takes, and ends before what it does not take.
pub proof fn lemma_run_takes(s: Seq<char>, i: int, run: Run)
    requires
        0 <= i <= s.len(),
    ensures
        i <= ini::run_end(s, i, run) <= s.len(),
        forall|j: int| i <= j < ini::run_end(s, i, run) ==> ini::takes(run, #[trigger] s[j]),
        ini::run_end(s, i, run) < s.len() ==> !ini::takes(run, s[ini::run_end(s, i, run)]),
    decreases s.len() - i,
{
    if i < s.len() && ini::takes(run, s[i]) {
        lemma_run_takes(s, i + 1, run);
    }
}

/// A run over characters that it takes, up to one that it does not take.
pub proof fn lemma_run_to(s: Seq<char>, i: int, j: int, run: Run)
    requires
        0 <= i <= j <= s.len(),
        forall|k: int| i <= k < j ==> ini::takes(run, #[trigger] s[k]),
        j < s.len() ==> !ini::takes(run, s[j]),
    ensures
        ini::run_end(s, i, run) == j,
    decreases j - i,
{
    if i < j {
        assert(ini::takes(run, s[i]));
        lemma_run_to(s, i + 1, j, run);
    }
}

/// What the end of a value is.
pub proof fn lemma_value_end(s: Seq<char>, i: int)
    requires
        0 <= i <= s.len(),
    ensures
        i <= ini::value_end(s, i) <= s.len(),
        forall|j: int| i <= j < ini::value_end(s, i) ==> !#[trigger] ini::value_stops(s, j),
        ini::value_end(s, i) < s.len() ==> ini::value_stops(s, ini::value_end(s, i)),
    decreases s.len() - i,
{
    if !(i >= s.len() || ini::value_stops(s, i)) {
        lemma_value_end(s, i + 1);
    }
}

/// A value that goes on up to a place where it stops.
proof fn lemma_value_to(s: Seq<char>, i: int, j: int)
    requires
        0 <= i <= j <= s.len(),
        forall|k: int| i <= k < j ==> !#[trigger] ini::value_stops(s, k),
        j < s.len() ==> ini::value_stops(s, j),
    ensures
        ini::value_end(s, i) == j,
    decreases j - i,
{
    if i < j {
        assert(!ini::value_stops(s, i));
        lemma_value_to(s, i + 1, j);
    }
}

/// The key and the value of a line are of the grammar.
proof fn lemma_pair_tidy(s: Seq<char>, i: int)
    requires
        0 <= i < s.len(),
    ensures
        match ini::pair_at(s, i) {
            Some((LineView::Pair { key, value }, _)) => is_key(key) && is_value(value),
            Some(_) => false,
            None => true,
        },
{
    if ini::is_key_start(s[i]) {
        let a = ini::run_end(s, i + 1, Run::Key);
        lemma_run_takes(s, i + 1, Run::Key);
        let b = ini::run_end(s, a, Run::Blanks);
        lemma_run_takes(s, a, Run::Blanks);
        if b < s.len() && s[b] == '=' {
            let c = ini::run_end(s, b + 1, Run::Blanks);
            lemma_run_takes(s, b + 1, Run::Blanks);
            let d = ini::value_end(s, c);
            lemma_value_end(s, c);
            let key = s.subrange(i, a);
            let value = s.subrange(c, d);
            assert forall|j: int| 0 <= j < key.len() implies ini::is_key_char(
                #[trigger] key[j],
            ) by {
                if j > 0 {
                    assert(ini::takes(Run::Key, s[i + j]));
                }
            }
            assert forall|j: int| 0 <= j < value.len() implies !ini::is_comment_mark(
                #[trigger] value[j],
            ) && !ini::is_line_break(value[j]) by {
                assert(!ini::value_stops(s, c + j));
            }
            if c < d {
                assert(!ini::takes(Run::Blanks, s[c]));
                let last = d - 1;
                assert(!ini::value_stops(s, last));
                if ini::is_blank(s[last]) {
                    assert(ini::run_end(s, last, Run::Blanks) == ini::run_end(
                        s,
                        d,
                        Run::Blanks,
                    ));
                }
            }
        }
    }
}

/// A line is a header, a tidy pair or nothing.
pub open spec fn is_tidy_line(line: LineView) -> bool {
    match line {
        LineView::Header { name } => true,
        LineView::Pair { key, value } => is_key(key) && is_value(value),
        LineView::Empty => true,
    }
}

/// All lines of a document are tidy.
proof fn lemma_lines_tidy(s: Seq<char>, i: int)
    requires
        0 <= i,
    ensures
        ini::lines_from(s, i) matches Some(lines) ==> forall|j: int|
            0 <= j < lines.len() ==> is_tidy_line(#[trigger] lines[j]),
    decreases s.len() - i,
{
    if i < s.len() {
        lemma_pair_tidy(s, i);
        match ini::line_at(s, i) {
            Some((line, next)) => {
                if i < next <= s.len() {
                    lemma_lines_tidy(s, next);
                }
            },
            None => {},
        }
    }
}

/// Tidy lines make tidy sections.
proof fn lemma_sections_tidy(lines: Seq<LineView>)
    requires
        forall|j: int| 0 <= j < lines.len() ==> is_tidy_line(#[trigger] lines[j]),
    ensures
        is_tidy(ini::after_lines(lines).sections),
        ini::after_lines(lines).sections.contains_key(ini::after_lines(lines).current),
    decreases lines.len(),
{
    if lines.len() == 0 {
        lemma_default_trimmed();
    } else {
        let before = ini::after_lines(lines.drop_last());
        lemma_sections_tidy(lines.drop_last());
        let line = lines.last();
        assert(is_tidy_line(line));
        if let LineView::Header { name } = line {
            text::law_trimmed_idempotent(name);
        }
    }
}

/// The name `default` is trimmed.
proof fn lemma_default_trimmed()
    ensures
        text::trimmed("default"@) == "default"@,
{
    reveal_strlit("default");
    let s = "default"@;
    assert(s.len() == 7 && s[0] == 'd' && s.last() == 't');
    assert(text::trimmed_start(s) == s);
    assert(text::trimmed_end(s) == s);
}

/// Every document gives the section `default`, section names without white
/// space at their ends, keys of the grammar, and values that hold no comment
/// and no blanks at their ends.
pub proof fn law_documents_are_tidy(s: Seq<char>)
    requires
        ini::parsed_ini(s) is Some,
    ensures
        is_tidy(ini::parsed_ini(s)->Some_0),
{
    lemma_lines_tidy(s, 0);
    lemma_sections_tidy(ini::lines_from(s, 0)->Some_0);
}

// ---------------------------------------------------------------------------
// How a document is written
// ---------------------------------------------------------------------------

/// Only blanks.
pub open spec fn all_blank(t: Seq<char>) -> bool {
    forall|i: int| 0 <= i < t.len() ==> ini::is_blank(#[trigger] t[i])
}

/// Nothing, or a comment up to the end of a line.
pub open spec fn is_comment(t: Seq<char>) -> bool {
    t.len() > 0 ==> ini::is_comment_mark(t[0]) && forall|i: int|
        0 <= i < t.len() ==> !ini::is_line_break(#[trigger] t[i])
}

/// The end of a line as it is written on Unix and on Windows.
pub open spec fn is_newline(t: Seq<char>) -> bool {
    t == seq!['\n'] || t == seq!['\r', '\n']
}

/// What is written of one line.
pub struct Written {
    /// The line.
    pub line: LineView,
    /// The blanks after `[` or before `=`.
    pub inner: Seq<char>,
    /// The blanks after `=`.
    pub outer: Seq<char>,
    /// The blanks before the comment or the end of the line.
    pub gap: Seq<char>,
    /// The comment, where there is one.
    pub comment: Seq<char>,
    /// The line break.
    pub newline: Seq<char>,
}

impl Written {
    /// Each part is of its kind.
    pub open spec fn is_proper(self) -> bool {
        &&& all_blank(self.inner)
        &&& all_blank(self.outer)
        &&& all_blank(self.gap)
        &&& is_comment(self.comment)
        &&& is_newline(self.newline)
        &&& match self.line {
            LineView::Header { name } => name.len() > 0 && !ini::is_blank(name[0])
                && !name.contains(']'),
            LineView::Pair { key, value } => is_key(key) && is_value(value),
            LineView::Empty => true,
        }
    }

    /// What comes after the header or the value.
    pub open spec fn close(self) -> Seq<char> {
        self.gap + self.comment + self.newline
    }

    /// The text of the line.
    pub open spec fn text(self) -> Seq<char> {
        match self.line {
            LineView::Header { name } => seq!['['] + self.inner + name + seq![']'] + self.close(),
            LineView::Pair { key, value } => key + self.inner + seq!['='] + self.outer + value
                + self.close(),
            LineView::Empty => self.close(),
        }
    }
}

/// The text of a document.
pub open spec fn document(written: Seq<Written>) -> Seq<char>
    decreases written.len(),
{
    if written.len() == 0 {
        Seq::empty()
    } else {
        written[0].text() + document(written.drop_first())
    }
}

/// The lines of a document.
pub open spec fn lines_of(written: Seq<Written>) -> Seq<LineView> {
    written.map_values(|w: Written| w.line)
}

/// `part` stands in `s` at `i`.
pub open spec fn stands(s: Seq<char>, i: int, part: Seq<char>) -> bool {
    &&& 0 <= i
    &&& i + part.len() <= s.len()
    &&& forall|j: int| #![trigger s[j]] i <= j < i + part.len() ==> s[j] == part[j - i]
}

/// Where a joined text stands, its parts stand.
pub proof fn lemma_stands_split(s: Seq<char>, i: int, a: Seq<char>, b: Seq<char>)
    requires
        stands(s, i, a + b),
    ensures
        stands(s, i, a),
        stands(s, i + a.len(), b),
{
    assert forall|j: int| #![trigger s[j]] i <= j < i + a.len() implies s[j] == a[j - i] by {
        assert((a + b)[j - i] == a[j - i]);
    }
    assert forall|j: int| #![trigger s[j]] i + a.len() <= j < i + a.len() + b.len() implies s[j]
        == b[j - (i + a.len())] by {
        assert((a + b)[j - i] == b[j - i - a.len()]);
    }
}

/// A line ends where its end is written, and no value goes on there.
proof fn lemma_close(s: Seq<char>, i: int, w: Written)
    requires
        w.is_proper(),
        stands(s, i, w.close()),
    ensures
        ini::line_close(s, i) == Some(i + w.close().len()),
        ini::value_stops(s, i),
        i < i + w.close().len() <= s.len(),
        s[i] != '[' && !ini::is_key_start(s[i]) && s[i] != '=' && !ini::is_key_char(s[i]),
{
    let a = i + w.gap.len();
    let b = a + w.comment.len();
    lemma_stands_split(s, i, w.gap + w.comment, w.newline);
    lemma_stands_split(s, i, w.gap, w.comment);
    assert(ini::is_line_break(s[b])) by {
        assert(s[b] == w.newline[0]);
    }
    assert forall|k: int| i <= k < a implies ini::takes(Run::Blanks, #[trigger] s[k]) by {
        assert(ini::is_blank(w.gap[k - i]));
    }
    assert(w.comment.len() > 0 ==> s[a] == w.comment[0]);
    lemma_run_to(s, i, a, Run::Blanks);
    if w.comment.len() > 0 {
        assert forall|k: int| a <= k < b implies ini::takes(Run::Rest, #[trigger] s[k]) by {
            assert(!ini::is_line_break(w.comment[k - a]));
        }
        lemma_run_to(s, a, b, Run::Rest);
    }
    assert(ini::break_len(s, b) == w.newline.len()) by {
        if w.newline.len() == 2 {
            assert(s[b + 1] == w.newline[1]);
        } else {
            assert(w.newline == seq!['\n']);
        }
    }
    if w.gap.len() > 0 {
        assert(ini::is_blank(w.gap[0]));
        assert(s[i] == w.gap[0]);
    }
}

/// Blanks between two places.
proof fn lemma_blanks(s: Seq<char>, i: int, blanks: Seq<char>)
    requires
        stands(s, i, blanks),
        all_blank(blanks),
        i + blanks.len() < s.len(),
        !ini::is_blank(s[i + blanks.len()]),
    ensures
        ini::run_end(s, i, Run::Blanks) == i + blanks.len(),
{
    assert forall|k: int| i <= k < i + blanks.len() implies ini::takes(
        Run::Blanks,
        #[trigger] s[k],
    ) by {
        assert(ini::is_blank(blanks[k - i]));
    }
    lemma_run_to(s, i, i + blanks.len(), Run::Blanks);
}

/// A header is read as it is written.
pub proof fn lemma_header_read(s: Seq<char>, i: int, w: Written)
    requires
        w.is_proper(),
        w.line is Header,
        stands(s, i, w.text()),
    ensures
        ini::line_at(s, i) == Some((w.line, i + w.text().len())),
{
    let name = w.line->name;
    let open = seq!['['];
    let shut = seq![']'];
    lemma_stands_split(s, i, open + w.inner + name + shut, w.close());
    lemma_stands_split(s, i, open + w.inner + name, shut);
    lemma_stands_split(s, i, open + w.inner, name);
    lemma_stands_split(s, i, open, w.inner);
    let a = i + 1 + w.inner.len();
    let b = a + name.len();
    assert(s[i] == '[');
    assert(s[b] == ']');
    assert(s[a] == name[0]);
    lemma_blanks(s, i + 1, w.inner);
    assert forall|k: int| a <= k < b implies ini::takes(Run::Name, #[trigger] s[k]) by {
        assert(name.contains(name[k - a]));
    }
    lemma_run_to(s, a, b, Run::Name);
    lemma_close(s, b + 1, w);
    assert(s.subrange(a, b) =~= name);
}

/// A pair is read as it is written.
proof fn lemma_pair_read(s: Seq<char>, i: int, w: Written)
    requires
        w.is_proper(),
        w.line is Pair,
        stands(s, i, w.text()),
    ensures
        ini::line_at(s, i) == Some((w.line, i + w.text().len())),
{
    let key = w.line->key;
    let value = w.line->value;
    let equals = seq!['='];
    lemma_stands_split(s, i, key + w.inner + equals + w.outer + value, w.close());
    lemma_stands_split(s, i, key + w.inner + equals + w.outer, value);
    lemma_stands_split(s, i, key + w.inner + equals, w.outer);
    lemma_stands_split(s, i, key + w.inner, equals);
    lemma_stands_split(s, i, key, w.inner);
    let a = i + key.len();
    let b = a + w.inner.len();
    let c = b + 1 + w.outer.len();
    let d = c + value.len();
    assert(s[i] == key[0]);
    assert(s[b] == '=');
    lemma_close(s, d, w);
    if w.inner.len() > 0 {
        assert(ini::is_blank(w.inner[0]));
        assert(s[a] == w.inner[0]);
    }
    assert forall|k: int| i + 1 <= k < a implies ini::takes(Run::Key, #[trigger] s[k]) by {
        assert(ini::is_key_char(key[k - i]));
    }
    lemma_run_to(s, i + 1, a, Run::Key);
    lemma_blanks(s, a, w.inner);
    if value.len() > 0 {
        assert(s[c] == value[0]);
        assert(s[d - 1] == value.last());
        lemma_blanks(s, b + 1, w.outer);
        assert forall|k: int| c <= k < d implies !#[trigger] ini::value_stops(s, k) by {
            let q = ini::run_end(s, k, Run::Blanks);
            lemma_run_takes(s, k, Run::Blanks);
            if q > d - 1 {
                assert(ini::takes(Run::Blanks, s[d - 1]));
            }
            assert(s[q] == value[q - c]);
        }
        lemma_value_to(s, c, d);
        assert(s.subrange(c, d) =~= value);
    } else {
        let e = c + w.gap.len();
        lemma_stands_split(s, c, w.gap + w.comment, w.newline);
        lemma_stands_split(s, c, w.gap, w.comment);
        assert(w.comment.len() > 0 ==> s[e] == w.comment[0]);
        assert(w.comment.len() == 0 ==> s[e] == w.newline[0]);
        assert(w.newline[0] == '\n' || w.newline[0] == '\r');
        assert forall|k: int| b + 1 <= k < e implies ini::takes(Run::Blanks, #[trigger] s[k]) by {
            if k < c {
                assert(ini::is_blank(w.outer[k - (b + 1)]));
            } else {
                assert(ini::is_blank(w.gap[k - c]));
            }
        }
        lemma_run_to(s, b + 1, e, Run::Blanks);
        lemma_run_to(s, e, e, Run::Blanks);
        lemma_run_to(s, c, e, Run::Blanks);
        assert(ini::value_stops(s, e));
        lemma_value_to(s, e, e);
        assert(ini::line_close(s, e) == ini::line_close(s, c));
        assert(s.subrange(e, e) =~= value);
    }
    assert(s.subrange(i, a) =~= key);
}

/// A line is read as it is written.
proof fn lemma_line_read(s: Seq<char>, i: int, w: Written)
    requires
        w.is_proper(),
        stands(s, i, w.text()),
    ensures
        ini::line_at(s, i) == Some((w.line, i + w.text().len())),
        w.text().len() > 0,
{
    match w.line {
        LineView::Header { .. } => {
            lemma_header_read(s, i, w);
        },
        LineView::Pair { .. } => {
            lemma_pair_read(s, i, w);
        },
        LineView::Empty => {
            lemma_close(s, i, w);
        },
    }
}

/// The rest of a document is read as it is written.
pub proof fn lemma_lines_read(s: Seq<char>, i: int, written: Seq<Written>)
    requires
        forall|j: int| 0 <= j < written.len() ==> (#[trigger] written[j]).is_proper(),
        stands(s, i, document(written)),
        s.len() == i + document(written).len(),
    ensures
        ini::lines_from(s, i) == Some(lines_of(written)),
    decreases written.len(),
{
    if written.len() == 0 {
        assert(lines_of(written) =~= Seq::empty());
    } else {
        let w = written[0];
        let rest = written.drop_first();
        lemma_stands_split(s, i, w.text(), document(rest));
        lemma_line_read(s, i, w);
        lemma_lines_read(s, i + w.text().len(), rest);
        assert(seq![w.line] + lines_of(rest) =~= lines_of(written));
    }
}

/// A document gives what is written in its lines, whatever blanks, comments,
/// empty lines and kinds of line breaks it is written with.
pub proof fn law_written_documents_read(written: Seq<Written>)
    requires
        forall|j: int| 0 <= j < written.len() ==> (#[trigger] written[j]).is_proper(),
    ensures
        ini::parsed_ini(document(written)) == Some(
            ini::after_lines(lines_of(written)).sections,
        ),
{
    lemma_lines_read(document(written), 0, written);
}

/// Empty lines and comments make no difference to what a document gives.
pub proof fn law_empty_lines_ignored(lines: Seq<LineView>)
    ensures
        ini::after_lines(lines) == ini::after_lines(
            lines.filter(|line: LineView| line != LineView::Empty),
        ),
    decreases lines.len(),
{
    reveal(Seq::filter);
    if lines.len() > 0 {
        law_empty_lines_ignored(lines.drop_last());
        let kept = lines.filter(|line: LineView| line != LineView::Empty);
        if lines.last() != LineView::Empty {
            assert(kept.drop_last() =~= lines.drop_last().filter(
                |line: LineView| line != LineView::Empty,
            ));
        }
    }
}

/// Of several values for one key of a section, the last one counts, and
/// nothing else changes.
pub proof fn law_last_value_counts(lines: Seq<LineView>, key: Seq<char>, value: Seq<char>)
    ensures
        ({
            let before = ini::after_lines(lines);
            let after = ini::after_lines(lines.push(LineView::Pair { key, value }));
            &&& after.current == before.current
            &&& after.sections.contains_key(before.current)
            &&& after.sections[before.current].contains_key(key)
            &&& after.sections[before.current][key] == value
            &&& forall|name: Seq<char>| #![trigger after.sections.contains_key(name)]
                name != before.current ==> after.sections.contains_key(name)
                    == before.sections.contains_key(name) && (before.sections.contains_key(name)
                    ==> after.sections[name] == before.sections[name])
            &&& forall|k: Seq<char>| #![trigger after.sections[before.current].contains_key(k)]
                k != key ==> after.sections[before.current].contains_key(k)
                    == ini::section_or_empty(before.sections, before.current).contains_key(k) && (
                after.sections[before.current].contains_key(k) ==> after.sections[before.current][k]
                    == ini::section_or_empty(before.sections, before.current)[k])
        }),
{
    let line = LineView::Pair { key, value };
    assert(lines.push(line).drop_last() =~= lines);
    assert(lines.push(line).last() == line);
}

/// The keys before the first header belong to the section `default`.
pub proof fn law_first_keys_are_default(lines: Seq<LineView>)
    requires
        forall|j: int| 0 <= j < lines.len() ==> !(#[trigger] lines[j] is Header),
    ensures
        ini::after_lines(lines).current == "default"@,
        ini::after_lines(lines).sections.dom() == Set::empty().insert("default"@),
    decreases lines.len(),
{
    if lines.len() > 0 {
        law_first_keys_are_default(lines.drop_last());
    }
    assert(ini::after_lines(lines).sections.dom() =~= Set::empty().insert("default"@));
}

/// After any lines, a header turns to the section of its name, without the
/// white space at the ends of the name. That section is there, and empty where
/// it was not there before; all sections that were there stay as they were.
pub proof fn law_header_turns_to_its_name(lines: Seq<LineView>, name: Seq<char>, s: Seq<char>)
    ensures
        ({
            let before = ini::after_lines(lines);
            let after = ini::after_lines(lines.push(LineView::Header { name }));
            &&& after.current == text::trimmed(name)
            &&& after.sections.contains_key(s) == (before.sections.contains_key(s) || s
                == text::trimmed(name))
            &&& before.sections.contains_key(s) ==> after.sections[s] == before.sections[s]
            &&& s == text::trimmed(name) && !before.sections.contains_key(s)
                ==> after.sections[s] == Map::<Seq<char>, Seq<char>>::empty()
        }),
        name.len() > 0 && !text::is_white_space(name[0]) && !text::is_white_space(name.last())
            ==> text::trimmed(name) == name,
{
    let line = LineView::Header { name };
    assert(lines.push(line).drop_last() =~= lines);
    assert(lines.push(line).last() == line);
}

} // verus!
