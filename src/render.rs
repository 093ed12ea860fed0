use vstd::prelude::*;
use vstd::string::*;

use crate::decimal::{decimal_digits, decimal_string};
use crate::diagnostic::{Diagnostic, Level};
use crate::pos_info::PosInfo;
use crate::source_file::{display_col, is_line_index, lemma_line_index_unique, line_of, SourceFile};
use crate::source_map::{holds_pos, SourceMap};
use crate::text::{lemma_line_starts, line_starts};

verus! {

/// One line of a snippet: its number, its text, and the row of marks under
/// it followed by the label.
pub struct SnippetLine {
    pub line_number: u32,
    pub source: String,
    pub marks: String,
}

/// The source lines that a diagnostic points at.
pub struct Snippet {
    /// Width of the gutter: the number of digits of the last line number.
    pub indent: usize,
    pub file_name: String,
    /// 1-based line and column of the start of the span.
    pub line: usize,
    pub col: usize,
    pub lines: Vec<SnippetLine>,
}

/// A diagnostic laid out for a terminal, before any color is applied.
pub struct RenderedDiagnostic {
    pub level: Level,
    pub level_name: String,
    pub message: String,
    pub snippet: Option<Snippet>,
}

/// The word that introduces a diagnostic of the level.
pub open spec fn level_name(level: Level) -> Seq<char> {
    match level {
        Level::Error => "error"@,
        Level::Warn => "warning"@,
        Level::Note => "note"@,
    }
}

/// The character that underlines a span: `^` for errors and warnings, `-`
/// for notes.
pub open spec fn level_mark(level: Level) -> Seq<char> {
    match level {
        Level::Error => "^"@,
        Level::Warn => "^"@,
        Level::Note => "-"@,
    }
}

pub open spec fn repeat(s: Seq<char>, n: nat) -> Seq<char>
    decreases n,
{
    if n == 0 {
        seq![]
    } else {
        repeat(s, (n - 1) as nat) + s
    }
}

/// The row under a line: blanks up to column `start`, marks up to column
/// `end` (none where `end` comes first), a blank and the label.
pub open spec fn underline(start: nat, end: nat, mark: Seq<char>, label: Seq<char>) -> Seq<char> {
    repeat(" "@, start) + repeat(mark, if end >= start {
        (end - start) as nat
    } else {
        0
    }) + " "@ + label
}

/// The display columns between which line `k` of the `count` lines of a
/// snippet of the span `[lo, hi)` in `f` is marked: from the start of the
/// span on the first line, else from the start of the line; to the end of
/// the span on the last line, else to the last character of the line.
pub open spec fn mark_columns(f: &SourceFile, lo: int, hi: int, k: int, count: int) -> (int, int) {
    let first = line_of(f, lo);
    (
        if k == 0 {
            display_col(f, lo)
        } else {
            0
        },
        if k == count - 1 {
            display_col(f, hi)
        } else {
            display_col(f, f.line_end(first + k) - 1)
        },
    )
}

/// A snippet is shown for the span `[lo, hi)` when its first and last bytes
/// lie in one file and it covers at least one line.
pub open spec fn snippet_owed(m: &SourceMap, lo: int, hi: int) -> bool {
    &&& m.spec_lookup_span(lo, hi) is Ok
    &&& line_of(&*m.files()[m.spec_lookup_span(lo, hi)->Ok_0], lo) <= line_of(
        &*m.files()[m.spec_lookup_span(lo, hi)->Ok_0],
        hi - 1,
    )
}

pub fn level_name_of(level: Level) -> (r: String)
    ensures
        r@ == level_name(level),
{
    match level {
        Level::Error => String::from_str("error"),
        Level::Warn => String::from_str("warning"),
        Level::Note => String::from_str("note"),
    }
}

fn level_mark_of(level: Level) -> (r: &'static str)
    ensures
        r@ == level_mark(level),
{
    match level {
        Level::Error => "^",
        Level::Warn => "^",
        Level::Note => "-",
    }
}

/// Builds the row of marks under a line.
pub fn underline_row(start: usize, end: usize, mark: &str, label: &str) -> (r: String)
    ensures
        r@ == underline(start as nat, end as nat, mark@, label@),
{
    let mut r = String::new();
    let mut i: usize = 0;
    while i < start
        invariant
            0 <= i <= start,
            r@ == repeat(" "@, i as nat),
        decreases start - i,
    {
        r.append(" ");
        i = i + 1;
    }
    let count = if end >= start {
        end - start
    } else {
        0
    };
    let ghost blanks = r@;
    let mut j: usize = 0;
    while j < count
        invariant
            0 <= j <= count,
            blanks == repeat(" "@, start as nat),
            r@ == blanks + repeat(mark@, j as nat),
        decreases count - j,
    {
        r.append(mark);
        proof {
            assert(blanks + repeat(mark@, (j + 1) as nat) == blanks + repeat(mark@, j as nat)
                + mark@);
        }
        j = j + 1;
    }
    r.append(" ");
    r.append(label);
    r
}

/// The display column of a position found in a file.
proof fn lemma_info_display_col(m: &SourceMap, i: int, p: int, info: PosInfo)
    requires
        m.wf(),
        0 <= i < m.files().len(),
        info.spec_file() == *m.files()[i],
        is_line_index(m.files()[i].line_table(), p, info.spec_line() - 1),
        info.spec_col_display() == crate::text::columns_between(
            m.files()[i].text(),
            m.files()[i].start(),
            m.files()[i].line_table()[info.spec_line() - 1],
            p,
        ),
    ensures
        info.spec_col_display() == display_col(&*m.files()[i], p),
        info.spec_line() - 1 == line_of(&*m.files()[i], p),
{
    let f = m.files()[i];
    assert(f.inv());
    lemma_line_starts(f.text(), f.start());
    lemma_line_index_unique(f.line_table(), p, info.spec_line() - 1, line_of(&*f, p));
}

/// Lays out a diagnostic: its level and message, and, where a source map is
/// given and the span of the diagnostic lies in one of its files, the lines
/// of that span with the span underlined. Local file names are made relative
/// to `cwd` where it is given.
pub fn render_diagnostic(diag: &Diagnostic, source_map: Option<&SourceMap>, cwd: Option<&str>) -> (r:
    RenderedDiagnostic)
    requires
        source_map matches Some(m) ==> m.wf(),
    ensures
        r.level == diag.level,
        r.level_name@ == level_name(diag.level),
        r.message@ == diag.message@,
        source_map is None ==> r.snippet is None,
        source_map matches Some(m) ==> (r.snippet is Some <==> snippet_owed(
            m,
            diag.labels.primary_label.span.lo(),
            diag.labels.primary_label.span.hi(),
        )),
        source_map matches Some(m) ==> (r.snippet matches Some(snippet) ==> {
            let span = diag.labels.primary_label.span;
            let i = m.spec_lookup_span(span.lo(), span.hi())->Ok_0;
            let f = *m.files()[i];
            let first = line_of(&f, span.lo());
            let lines = snippet.lines@;
            &&& m.spec_lookup_span(span.lo(), span.hi()) is Ok
            &&& lines.len() >= 1
            &&& snippet.indent == decimal_digits(lines.last().line_number as nat).len()
            &&& snippet.file_name@ == match cwd {
                Some(c) => f.spec_path().spec_readable_name_in(c@),
                None => f.spec_path().spec_readable_name(),
            }
            &&& snippet.line == first + 1
            &&& snippet.col == 1 + crate::text::chars_between(
                f.text(),
                f.start(),
                f.line_table()[first],
                span.lo(),
            )
            &&& lines.len() == line_of(&f, span.hi() - 1) - first + 1
            &&& forall|k: int|
                0 <= k < lines.len() ==> {
                    let line = #[trigger] lines[k];
                    &&& line.line_number == first + k + 1
                    &&& line.source@ == f.text().subrange(
                        f.char_index(f.line_table()[first + k]),
                        f.char_index(f.line_end(first + k)),
                    )
                }
            &&& forall|k: int|
                0 <= k < lines.len() ==> (#[trigger] lines[k]).marks@ == underline(
                    mark_columns(&f, span.lo(), span.hi(), k, lines.len() as int).0 as nat,
                    mark_columns(&f, span.lo(), span.hi(), k, lines.len() as int).1 as nat,
                    level_mark(diag.level),
                    diag.labels.primary_label.message@,
                )
        }),
{
    let level_name = level_name_of(diag.level);
    let snippet = match source_map {
        Some(m) => render_snippet(diag, m, cwd),
        None => None,
    };
    RenderedDiagnostic { level: diag.level, level_name, message: diag.message.clone(), snippet }
}

fn render_snippet(diag: &Diagnostic, m: &SourceMap, cwd: Option<&str>) -> (r: Option<Snippet>)
    requires
        m.wf(),
    ensures
        r is Some <==> snippet_owed(
            m,
            diag.labels.primary_label.span.lo(),
            diag.labels.primary_label.span.hi(),
        ),
        r matches Some(snippet) ==> {
            let span = diag.labels.primary_label.span;
            let i = m.spec_lookup_span(span.lo(), span.hi())->Ok_0;
            let f = *m.files()[i];
            let first = line_of(&f, span.lo());
            let lines = snippet.lines@;
            &&& m.spec_lookup_span(span.lo(), span.hi()) is Ok
            &&& lines.len() >= 1
            &&& snippet.indent == decimal_digits(lines.last().line_number as nat).len()
            &&& snippet.file_name@ == match cwd {
                Some(c) => f.spec_path().spec_readable_name_in(c@),
                None => f.spec_path().spec_readable_name(),
            }
            &&& snippet.line == first + 1
            &&& snippet.col == 1 + crate::text::chars_between(
                f.text(),
                f.start(),
                f.line_table()[first],
                span.lo(),
            )
            &&& lines.len() == line_of(&f, span.hi() - 1) - first + 1
            &&& forall|k: int|
                0 <= k < lines.len() ==> {
                    let line = #[trigger] lines[k];
                    &&& line.line_number == first + k + 1
                    &&& line.source@ == f.text().subrange(
                        f.char_index(f.line_table()[first + k]),
                        f.char_index(f.line_end(first + k)),
                    )
                }
            &&& forall|k: int|
                0 <= k < lines.len() ==> (#[trigger] lines[k]).marks@ == underline(
                    mark_columns(&f, span.lo(), span.hi(), k, lines.len() as int).0 as nat,
                    mark_columns(&f, span.lo(), span.hi(), k, lines.len() as int).1 as nat,
                    level_mark(diag.level),
                    diag.labels.primary_label.message@,
                )
        },
{
    let span = diag.span();
    let mark = level_mark_of(diag.level);
    let label = diag.labels.primary_label.message.as_str();
    let lines = match m.lookup_lines_at_span(span) {
        Ok(lines) => lines,
        Err(_) => return None,
    };
    let n = lines.len();
    if n == 0 {
        return None;
    }
    let start_info = match m.lookup_pos_info(span.start()) {
        Ok(info) => info,
        Err(_) => return None,
    };
    let ghost i = m.spec_lookup_span(span.lo(), span.hi())->Ok_0;
    proof {
        lemma_info_display_col(m, i, span.lo(), start_info);
    }
    let ghost f = m.files()[i];
    let ghost first = line_of(&*f, span.lo());
    let file = start_info.file();
    proof {
        assert(f.inv());
        use_type_invariant(&span);
    }
    // The end of the span may be the end of the file, which no lookup in the
    // map finds: ask the file itself.
    let (end_line, _, end_col) = file.lookup_line_col_and_col_display(span.end());
    proof {
        lemma_line_starts(f.text(), f.start());
        lemma_line_index_unique(f.line_table(), span.hi(), end_line - 1, line_of(&*f, span.hi()));
    }
    let mut out: Vec<SnippetLine> = Vec::new();
    let mut idx: usize = 0;
    while idx < n
        invariant
            m.wf(),
            n == lines@.len(),
            0 <= idx <= n,
            forall|k: int|
                0 <= k < n ==> (#[trigger] lines@[k]).spec_file() == *f && lines@[k].index()
                    == first + k,
            out@.len() == idx,
            forall|k: int|
                0 <= k < idx ==> {
                    let line = #[trigger] out@[k];
                    &&& line.line_number == lines@[k].index() + 1
                    &&& line.source@ == lines@[k].spec_file().text().subrange(
                        lines@[k].spec_file().char_index(lines@[k].spec_file().line_table()[lines@[k].index()]),
                        lines@[k].spec_file().char_index(lines@[k].spec_file().line_end(lines@[k].index())),
                    )
                },
            forall|k: int|
                0 <= k < idx ==> (#[trigger] out@[k]).marks@ == underline(
                    mark_columns(&*f, span.lo(), span.hi(), k, n as int).0 as nat,
                    mark_columns(&*f, span.lo(), span.hi(), k, n as int).1 as nat,
                    mark@,
                    label@,
                ),
            f == m.files()[i],
            0 <= i < m.files().len(),
            holds_pos(*f, span.lo()),
            first == line_of(&*f, span.lo()),
            is_line_index(f.line_table(), span.lo(), first),
            start_info.spec_col_display() == display_col(&*f, span.lo()),
            end_col == display_col(&*f, span.hi()),
            first + n <= f.line_table().len(),
        decreases n - idx,
    {
        let line = &lines[idx];
        let source = line.source();
        let line_span = line.span();
        proof {
            use_type_invariant(&line_span);
        }
        proof {
            assert(f.inv());
            lemma_line_starts(f.text(), f.start());
            assert(line_span.lo() == f.line_table()[first + idx]);
            assert(line_span.lo() >= 1);
        }
        let mark_start = if idx == 0 {
            start_info.col_display()
        } else {
            0
        };
        let mark_end = if idx == n - 1 {
            end_col
        } else {
            if line_span.is_dummy() {
                0
            } else {
                let last_char = line_span.end().sub_bytes(1);
                proof {
                    let t = f.line_table();
                    let k = first + idx;
                    assert(f.inv());
                    lemma_line_starts(f.text(), f.start());
                    assert(k + 1 < t.len());
                    assert(t == line_starts(f.text(), f.start()));
                    assert(crate::text::seq_increases(t));
                    assert(t[k] < t[k + 1]);
                    assert(holds_pos(*f, last_char.pos()));
                    crate::source_map::lemma_lookup_finds_file(m, i, last_char.pos());
                }
                match m.lookup_pos_info(last_char) {
                    Ok(info) => {
                        proof {
                            lemma_info_display_col(m, i, last_char.pos(), info);
                        }
                        info.col_display()
                    },
                    Err(_) => 0,
                }
            }
        };
        let marks = underline_row(mark_start, mark_end, mark, label);
        let number = line.line_number();
        out.push(SnippetLine { line_number: number, source, marks });
        idx = idx + 1;
    }
    let last_number = out[n - 1].line_number;
    let indent = decimal_string(last_number as u64).as_str().unicode_len();
    Some(
        Snippet {
            indent,
            file_name: match cwd {
                Some(c) => start_info.name_in(c),
                None => start_info.name(),
            },
            line: start_info.line(),
            col: start_info.col(),
            lines: out,
        },
    )
}

} // verus!
