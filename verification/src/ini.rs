//! INI parser compatible with the llama.cpp preset format.
//!
//! A document is a sequence of lines, and each line is one of
//!
//! ```text
//! header  "[" blanks name "]" close
//! pair    key blanks "=" blanks value close
//! empty   close
//! ```
//!
//! where `close` is blanks, an optional comment (`;` or `#` up to the end of
//! the line) and a line break (`\r\n`, `\n` or `\r`) or the end of the text;
//! blanks are spaces and tabs; a name is one or more characters up to the next
//! `]`; a key is a letter or `_` followed by letters, digits, `_`, `.` and
//! `-`; and a value runs up to the blanks, if any, before a comment, a line
//! break or the end of the text. Keys before the first header belong to the
//! section `default`.

use crate::table;
use crate::table::Table;
use crate::text;
use crate::text::{chars_of, decimal_text, slice_text};
use vstd::prelude::*;

verus! {

broadcast use vstd::string::group_string_axioms;

// ---------------------------------------------------------------------------
// Characters
// ---------------------------------------------------------------------------

/// A space or a tab.
pub open spec fn is_blank(c: char) -> bool {
    c == ' ' || c == '\t'
}

/// A character that breaks a line.
pub open spec fn is_line_break(c: char) -> bool {
    c == '\n' || c == '\r'
}

/// A character that starts a comment.
pub open spec fn is_comment_mark(c: char) -> bool {
    c == ';' || c == '#'
}

/// A character that can start a key.
pub open spec fn is_key_start(c: char) -> bool {
    'a' <= c <= 'z' || 'A' <= c <= 'Z' || c == '_'
}

/// A character that can follow in a key.
pub open spec fn is_key_char(c: char) -> bool {
    is_key_start(c) || '0' <= c <= '9' || c == '.' || c == '-'
}

/// The kinds of characters that the grammar takes in runs.
#[derive(Clone, Copy, PartialEq, Eq, Structural, Debug)]
pub enum Run {
    /// Spaces and tabs.
    Blanks,
    /// The characters of a key after its first.
    Key,
    /// The characters of a section name.
    Name,
    /// The characters up to a line break.
    Rest,
}

/// Whether a run of the kind `run` takes `c`.
pub open spec fn takes(run: Run, c: char) -> bool {
    match run {
        Run::Blanks => is_blank(c),
        Run::Key => is_key_char(c),
        Run::Name => c != ']',
        Run::Rest => !is_line_break(c),
    }
}

/// Where the longest run of the kind `run` that starts at `i` ends.
pub open spec fn run_end(s: Seq<char>, i: int, run: Run) -> int
    decreases s.len() - i,
{
    if 0 <= i < s.len() && takes(run, s[i]) {
        run_end(s, i + 1, run)
    } else {
        i
    }
}

// ---------------------------------------------------------------------------
// Lines
// ---------------------------------------------------------------------------

/// The length of the line break at `i`: 0 where there is none.
pub open spec fn break_len(s: Seq<char>, i: int) -> int {
    if 0 <= i && i + 1 < s.len() && s[i] == '\r' && s[i + 1] == '\n' {
        2
    } else if 0 <= i < s.len() && is_line_break(s[i]) {
        1
    } else {
        0
    }
}

/// Where the next line starts, if nothing but blanks and a comment is left of
/// the line at `i`.
pub open spec fn line_close(s: Seq<char>, i: int) -> Option<int> {
    let j = run_end(s, i, Run::Blanks);
    let k = if j < s.len() && is_comment_mark(s[j]) {
        run_end(s, j, Run::Rest)
    } else {
        j
    };
    if k >= s.len() {
        Some(k)
    } else if break_len(s, k) > 0 {
        Some(k + break_len(s, k))
    } else {
        None
    }
}

/// Nothing but blanks stands between `i` and a comment, a line break or the
/// end of the text.
pub open spec fn value_stops(s: Seq<char>, i: int) -> bool {
    let j = run_end(s, i, Run::Blanks);
    j >= s.len() || is_comment_mark(s[j]) || is_line_break(s[j])
}

/// Where the value that starts at `i` ends.
pub open spec fn value_end(s: Seq<char>, i: int) -> int
    decreases s.len() - i,
{
    if i >= s.len() || value_stops(s, i) {
        i
    } else {
        value_end(s, i + 1)
    }
}

/// A line of a document.
#[verifier::ext_equal]
pub enum LineView {
    /// A section header, with the name as written.
    Header { name: Seq<char> },
    /// A key with its value.
    Pair { key: Seq<char>, value: Seq<char> },
    /// A blank line or a comment.
    Empty,
}

/// The header at `i` and where the next line starts.
pub open spec fn header_at(s: Seq<char>, i: int) -> Option<(LineView, int)> {
    if s[i] != '[' {
        None
    } else {
        let a = run_end(s, i + 1, Run::Blanks);
        let b = run_end(s, a, Run::Name);
        if a < b < s.len() {
            match line_close(s, b + 1) {
                Some(next) => Some((LineView::Header { name: s.subrange(a, b) }, next)),
                None => None,
            }
        } else {
            None
        }
    }
}

/// The key and value at `i` and where the next line starts.
pub open spec fn pair_at(s: Seq<char>, i: int) -> Option<(LineView, int)> {
    if !is_key_start(s[i]) {
        None
    } else {
        let a = run_end(s, i + 1, Run::Key);
        let b = run_end(s, a, Run::Blanks);
        if b < s.len() && s[b] == '=' {
            let c = run_end(s, b + 1, Run::Blanks);
            let d = value_end(s, c);
            match line_close(s, d) {
                Some(next) => Some(
                    (LineView::Pair { key: s.subrange(i, a), value: s.subrange(c, d) }, next),
                ),
                None => None,
            }
        } else {
            None
        }
    }
}

/// The line at `i` and where the next line starts; `None` where no kind of
/// line matches.
pub open spec fn line_at(s: Seq<char>, i: int) -> Option<(LineView, int)> {
    match header_at(s, i) {
        Some(found) => Some(found),
        None => match pair_at(s, i) {
            Some(found) => Some(found),
            None => match line_close(s, i) {
                Some(next) => Some((LineView::Empty, next)),
                None => None,
            },
        },
    }
}

/// The lines from `i` to the end; `None` where some line does not match.
pub open spec fn lines_from(s: Seq<char>, i: int) -> Option<Seq<LineView>>
    decreases s.len() - i,
{
    if i >= s.len() {
        Some(Seq::empty())
    } else {
        match line_at(s, i) {
            Some((line, next)) => if i < next <= s.len() {
                match lines_from(s, next) {
                    Some(rest) => Some(seq![line] + rest),
                    None => None,
                }
            } else {
                None
            },
            None => None,
        }
    }
}

/// Where the first line at or after `i` starts that does not match.
pub open spec fn first_bad_line(s: Seq<char>, i: int) -> int
    decreases s.len() - i,
{
    if i >= s.len() {
        i
    } else {
        match line_at(s, i) {
            Some((line, next)) => if i < next <= s.len() {
                first_bad_line(s, next)
            } else {
                i
            },
            None => i,
        }
    }
}

// ---------------------------------------------------------------------------
// Sections
// ---------------------------------------------------------------------------

/// The sections read so far, and the one that the next key goes to.
#[verifier::ext_equal]
pub struct SectionsView {
    pub current: Seq<char>,
    pub sections: Map<Seq<char>, Map<Seq<char>, Seq<char>>>,
}

/// Before the first line: the empty section `default`.
pub open spec fn no_lines() -> SectionsView {
    SectionsView {
        current: "default"@,
        sections: Map::empty().insert("default"@, Map::empty()),
    }
}

/// What one more line does: a header turns to the section of its trimmed
/// name; a pair gives its key a value in the current section.
pub open spec fn after_line(before: SectionsView, line: LineView) -> SectionsView {
    match line {
        LineView::Header { name } => {
            let current = text::trimmed(name);
            SectionsView {
                current,
                sections: if before.sections.contains_key(current) {
                    before.sections
                } else {
                    before.sections.insert(current, Map::empty())
                },
            }
        },
        LineView::Pair { key, value } => SectionsView {
            current: before.current,
            sections: before.sections.insert(
                before.current,
                section_or_empty(before.sections, before.current).insert(key, value),
            ),
        },
        LineView::Empty => before,
    }
}

/// The section `name`, or an empty one.
pub open spec fn section_or_empty(
    sections: Map<Seq<char>, Map<Seq<char>, Seq<char>>>,
    name: Seq<char>,
) -> Map<Seq<char>, Seq<char>> {
    if sections.contains_key(name) {
        sections[name]
    } else {
        Map::empty()
    }
}

/// The sections after `lines`.
pub open spec fn after_lines(lines: Seq<LineView>) -> SectionsView
    decreases lines.len(),
{
    if lines.len() == 0 {
        no_lines()
    } else {
        after_line(after_lines(lines.drop_last()), lines.last())
    }
}

/// The sections of a document; `None` where it is not one.
pub open spec fn parsed_ini(s: Seq<char>) -> Option<Map<Seq<char>, Map<Seq<char>, Seq<char>>>> {
    match lines_from(s, 0) {
        Some(lines) => Some(after_lines(lines).sections),
        None => None,
    }
}

/// The keys and values of a section, as text.
pub open spec fn texts(kv: Table<String>) -> Map<Seq<char>, Seq<char>> {
    kv@.map_values(|v: String| v@)
}

/// The sections of a table of sections, as text.
pub open spec fn section_texts(sections: Table<Table<String>>) -> Map<
    Seq<char>,
    Map<Seq<char>, Seq<char>>,
> {
    kv_texts(sections@)
}

/// The sections of a map of sections, as text.
pub open spec fn kv_texts(sections: Map<Seq<char>, Table<String>>) -> Map<
    Seq<char>,
    Map<Seq<char>, Seq<char>>,
> {
    sections.map_values(|kv: Table<String>| texts(kv))
}

/// One more section.
pub proof fn lemma_kv_texts_insert(
    sections: Map<Seq<char>, Table<String>>,
    name: Seq<char>,
    kv: Table<String>,
)
    ensures
        kv_texts(sections.insert(name, kv)) == kv_texts(sections).insert(name, texts(kv)),
{
    assert(kv_texts(sections.insert(name, kv)) =~= kv_texts(sections).insert(name, texts(kv)));
}

/// The entries of a table up to a place, as text.
pub open spec fn texts_before(kv: Table<String>, i: int) -> Map<Seq<char>, Seq<char>> {
    table::map_of(kv.pairs().take(i)).map_values(|v: String| v@)
}

/// One more entry, which comes after those before it.
pub proof fn lemma_texts_before(kv: Table<String>, i: int)
    requires
        table::ascending(kv.pairs()),
        0 <= i < kv.pairs().len(),
    ensures
        texts_before(kv, i + 1) == texts_before(kv, i).insert(
            kv.pairs()[i].0,
            kv.pairs()[i].1@,
        ),
        forall|other: Seq<char>| #[trigger]
            texts_before(kv, i).contains_key(other) ==> text::precedes(other, kv.pairs()[i].0),
        !texts_before(kv, i).contains_key(kv.pairs()[i].0),
{
    table::lemma_ascending_distinct(kv.pairs());
    table::lemma_map_of_take(kv.pairs(), i);
    assert(texts_before(kv, i + 1) =~= texts_before(kv, i).insert(
        kv.pairs()[i].0,
        kv.pairs()[i].1@,
    ));
    assert forall|other: Seq<char>| #[trigger]
        texts_before(kv, i).contains_key(other) implies text::precedes(other, kv.pairs()[i].0) by {
        let j = table::pair_index(kv.pairs().take(i), other);
        assert(kv.pairs()[j].0 == other);
    }
}

/// No entry at the start, and all entries at the end.
pub proof fn lemma_texts_ends(kv: Table<String>)
    ensures
        texts_before(kv, 0) == Map::<Seq<char>, Seq<char>>::empty(),
        texts_before(kv, kv.pairs().len() as int) == texts(kv),
{
    table::lemma_map_of_none(kv.pairs());
    assert(texts_before(kv, 0) =~= Map::<Seq<char>, Seq<char>>::empty());
}

/// Gives the keys of `more` the values that they have there.
pub fn extend_texts(kv: &mut Table<String>, more: &Table<String>)
    ensures
        texts(*final(kv)) == texts(*old(kv)).union_prefer_right(texts(*more)),
{
    let len = more.len();
    let mut i: usize = 0;
    let ghost given = texts(*kv);
    proof {
        lemma_texts_ends(*more);
        assert(given.union_prefer_right(Map::empty()) =~= given);
    }
    while i < len
        invariant
            i <= len == more.pairs().len(),
            table::ascending(more.pairs()),
            texts(*kv) == given.union_prefer_right(texts_before(*more, i as int)),
        decreases len - i,
    {
        let key = more.key_at(i);
        let value = more.value_at(i);
        proof {
            lemma_texts_before(*more, i as int);
        }
        let ghost before = texts(*kv);
        kv.insert(key.to_owned(), value.clone());
        i += 1;
        proof {
            assert(texts(*kv) =~= before.insert(key@, value@));
            assert(texts(*kv) =~= given.union_prefer_right(texts_before(*more, i as int)));
        }
    }
    proof {
        lemma_texts_ends(*more);
    }
}

/// The same keys and values once more.
pub fn copy_texts(kv: &Table<String>) -> (r: Table<String>)
    ensures
        texts(r) == texts(*kv),
{
    let mut out: Table<String> = Table::new();
    extend_texts(&mut out, kv);
    assert(texts(out) =~= texts(*kv));
    out
}

/// Why a text is not an INI document.
#[derive(Clone, Copy, PartialEq, Eq, Structural, Debug)]
pub struct IniError {
    /// The number of characters before the first line that does not match.
    pub at: usize,
}

impl IniError {
    /// What went wrong and where, in words.
    pub fn message(&self) -> (r: String)
        ensures
            r@ == "INI parse error: "@ + "no line of the grammar at character "@ + text::decimal(
                self.at as nat,
            ),
            "INI parse error: "@.is_prefix_of(r@),
    {
        let mut out = "INI parse error: ".to_owned();
        out.append("no line of the grammar at character ");
        out.append(decimal_text(self.at).as_str());
        assert("INI parse error: "@ =~= out@.subrange(0, "INI parse error: "@.len() as int));
        out
    }
}

// ---------------------------------------------------------------------------
// Reading
// ---------------------------------------------------------------------------

/// A run ends no earlier than it starts and not beyond the text.
proof fn lemma_run_end(s: Seq<char>, i: int, run: Run)
    requires
        0 <= i <= s.len(),
    ensures
        i <= run_end(s, i, run) <= s.len(),
        forall|j: int| i <= j < run_end(s, i, run) ==> takes(run, #[trigger] s[j]),
        run_end(s, i, run) < s.len() ==> !takes(run, s[run_end(s, i, run)]),
    decreases s.len() - i,
{
    if i < s.len() && takes(run, s[i]) {
        lemma_run_end(s, i + 1, run);
    }
}

/// A line that closes does so within the text, and beyond its start unless
/// the text has ended.
proof fn lemma_line_close(s: Seq<char>, i: int)
    requires
        0 <= i <= s.len(),
    ensures
        line_close(s, i) matches Some(next) ==> i <= next <= s.len() && (i < s.len() ==> i < next),
{
    lemma_run_end(s, i, Run::Blanks);
    let j = run_end(s, i, Run::Blanks);
    lemma_run_end(s, j, Run::Rest);
}

/// Whether a run of the kind `run` takes `c`.
fn is_taken(run: Run, c: char) -> (r: bool)
    ensures
        r == takes(run, c),
{
    match run {
        Run::Blanks => c == ' ' || c == '\t',
        Run::Key => ('a' <= c && c <= 'z') || ('A' <= c && c <= 'Z') || c == '_' || ('0' <= c && c
            <= '9') || c == '.' || c == '-',
        Run::Name => c != ']',
        Run::Rest => c != '\n' && c != '\r',
    }
}

/// Where a run ends.
fn skip_run(s: &Vec<char>, start: usize, run: Run) -> (r: usize)
    requires
        start <= s@.len(),
    ensures
        r == run_end(s@, start as int, run),
        start <= r <= s@.len(),
{
    let mut i: usize = start;
    while i < s.len() && is_taken(run, s[i])
        invariant
            start <= i <= s@.len(),
            run_end(s@, i as int, run) == run_end(s@, start as int, run),
        decreases s@.len() - i,
    {
        i += 1;
    }
    i
}

/// Where the next line starts, if the line closes at `start`.
fn close_line(s: &Vec<char>, start: usize) -> (r: Option<usize>)
    requires
        start <= s@.len(),
    ensures
        match r {
            Some(next) => line_close(s@, start as int) == Some(next as int) && start <= next
                <= s@.len() && (start < s@.len() ==> start < next),
            None => line_close(s@, start as int) is None,
        },
{
    proof {
        lemma_line_close(s@, start as int);
    }
    let mut k: usize = skip_run(s, start, Run::Blanks);
    if k < s.len() && (s[k] == ';' || s[k] == '#') {
        k = skip_run(s, k, Run::Rest);
    }
    if k >= s.len() {
        Some(k)
    } else if s[k] == '\r' && k + 1 < s.len() && s[k + 1] == '\n' {
        Some(k + 2)
    } else if s[k] == '\n' || s[k] == '\r' {
        Some(k + 1)
    } else {
        None
    }
}

/// A value that does not stop at `i` goes on beyond the blanks at `i` and the
/// character after them.
proof fn lemma_value_goes_on(s: Seq<char>, i: int)
    requires
        0 <= i < s.len(),
        !value_stops(s, i),
    ensures
        i <= run_end(s, i, Run::Blanks) < s.len(),
        value_end(s, i) == value_end(s, run_end(s, i, Run::Blanks) + 1),
    decreases s.len() - i,
{
    lemma_run_end(s, i, Run::Blanks);
    if is_blank(s[i]) {
        lemma_value_goes_on(s, i + 1);
    }
}

/// Where a value ends.
fn skip_value(s: &Vec<char>, start: usize) -> (r: usize)
    requires
        start <= s@.len(),
    ensures
        r == value_end(s@, start as int),
        start <= r <= s@.len(),
{
    let mut i: usize = start;
    while i < s.len()
        invariant
            start <= i <= s@.len(),
            value_end(s@, i as int) == value_end(s@, start as int),
        decreases s@.len() - i,
    {
        let j = skip_run(s, i, Run::Blanks);
        if j >= s.len() || s[j] == ';' || s[j] == '#' || s[j] == '\n' || s[j] == '\r' {
            return i;
        }
        proof {
            lemma_value_goes_on(s@, i as int);
        }
        i = j + 1;
    }
    i
}

/// A line that has been read.
enum Line {
    Header(String),
    Pair(String, String),
    Empty,
}

impl Line {
    spec fn view(&self) -> LineView {
        match self {
            Line::Header(name) => LineView::Header { name: name@ },
            Line::Pair(key, value) => LineView::Pair { key: key@, value: value@ },
            Line::Empty => LineView::Empty,
        }
    }
}

/// Reads the line at `i`.
fn read_line(s: &Vec<char>, i: usize) -> (r: Option<(Line, usize)>)
    requires
        i < s@.len(),
    ensures
        match r {
            Some((line, next)) => line_at(s@, i as int) == Some((line.view(), next as int)) && i
                < next <= s@.len(),
            None => line_at(s@, i as int) is None,
        },
{
    let len = s.len();
    let first = s[i];
    if first == '[' {
        let a = skip_run(s, i + 1, Run::Blanks);
        let b = skip_run(s, a, Run::Name);
        if a < b && b < len {
            if let Some(next) = close_line(s, b + 1) {
                return Some((Line::Header(slice_text(s, a, b)), next));
            }
        }
    } else if ('a' <= first && first <= 'z') || ('A' <= first && first <= 'Z') || first == '_' {
        let a = skip_run(s, i + 1, Run::Key);
        let b = skip_run(s, a, Run::Blanks);
        if b < len && s[b] == '=' {
            let c = skip_run(s, b + 1, Run::Blanks);
            let d = skip_value(s, c);
            if let Some(next) = close_line(s, d) {
                return Some((Line::Pair(slice_text(s, i, a), slice_text(s, c, d)), next));
            }
        }
    }
    match close_line(s, i) {
        Some(next) => Some((Line::Empty, next)),
        None => None,
    }
}

/// Gives `key` a value in the section `name`, which is made if it is not
/// there.
fn set_in_section(sections: &mut Table<Table<String>>, name: &str, key: String, value: String)
    ensures
        section_texts(*final(sections)) == section_texts(*old(sections)).insert(
            name@,
            section_or_empty(section_texts(*old(sections)), name@).insert(key@, value@),
        ),
{
    let mut kv = match sections.remove(name) {
        Some(kv) => kv,
        None => Table::new(),
    };
    assert(texts(kv) =~= section_or_empty(section_texts(*old(sections)), name@));
    let ghost before = texts(kv);
    kv.insert(key, value);
    assert(texts(kv) =~= before.insert(key@, value@));
    sections.insert(name.to_owned(), kv);
    assert(section_texts(*sections) =~= section_texts(*old(sections)).insert(name@, texts(kv)));
}

/// Makes the section `name` if it is not there.
fn open_section(sections: &mut Table<Table<String>>, name: &str)
    ensures
        section_texts(*final(sections)) == if section_texts(*old(sections)).contains_key(name@) {
            section_texts(*old(sections))
        } else {
            section_texts(*old(sections)).insert(name@, Map::empty())
        },
{
    if !sections.contains_key(name) {
        let kv: Table<String> = Table::new();
        assert(texts(kv) =~= Map::empty());
        sections.insert(name.to_owned(), kv);
        assert(section_texts(*sections) =~= section_texts(*old(sections)).insert(
            name@,
            Map::empty(),
        ));
    }
}

/// Parses an INI document into its sections. Keys before any section header
/// go into the section `default`, which is always there.
pub fn parse_ini_str(input: &str) -> (r: Result<Table<Table<String>>, IniError>)
    ensures
        match r {
            Ok(sections) => parsed_ini(input@) == Some(section_texts(sections)),
            Err(e) => parsed_ini(input@) is None && e.at == first_bad_line(input@, 0),
        },
{
    let s = chars_of(input);
    let mut current = "default".to_owned();
    let mut sections: Table<Table<String>> = Table::new();
    assert(section_texts(sections) =~= Map::empty());
    open_section(&mut sections, "default");
    let mut i: usize = 0;
    let ghost mut done = Seq::<LineView>::empty();
    proof {
        if let Some(rest) = lines_from(s@, 0) {
            assert(done + rest =~= rest);
        }
    }
    while i < s.len()
        invariant
            s@ == input@,
            i <= s@.len(),
            current@ == after_lines(done).current,
            section_texts(sections) == after_lines(done).sections,
            first_bad_line(s@, i as int) == first_bad_line(s@, 0),
            match lines_from(s@, i as int) {
                Some(rest) => lines_from(s@, 0) == Some(done + rest),
                None => lines_from(s@, 0) is None,
            },
        decreases s@.len() - i,
    {
        match read_line(&s, i) {
            None => {
                return Err(IniError { at: i });
            },
            Some((line, next)) => {
                proof {
                    let more = done.push(line.view());
                    assert(more.drop_last() =~= done);
                    if let Some(rest) = lines_from(s@, next as int) {
                        assert(more + rest =~= done + (seq![line.view()] + rest));
                    }
                    done = more;
                }
                match line {
                    Line::Header(name) => {
                        current = name.as_str().trim().to_owned();
                        open_section(&mut sections, current.as_str());
                    },
                    Line::Pair(key, value) => {
                        set_in_section(&mut sections, current.as_str(), key, value);
                    },
                    Line::Empty => {},
                }
                i = next;
            },
        }
    }
    assert(done + Seq::<LineView>::empty() =~= done);
    Ok(sections)
}

} // verus!
