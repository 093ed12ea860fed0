use std::rc::Rc;

use vstd::prelude::*;
use vstd::string::*;

use crate::pos::Pos;
use crate::source_path::SourcePath;
use crate::span::Span;
use crate::text::{
    byte_len, byte_offset, char_pos, chars_between, columns_between, columns_upto, count_upto,
    display_width_at, ends_line, extra_bytes, extra_columns, lemma_byte_len_encoding,
    lemma_byte_offset_mono, lemma_byte_offset_step, lemma_columns, lemma_columns_bounds,
    lemma_count_bounds, lemma_extra_bytes_nonneg,
    lemma_extra_take_none, lemma_extra_take_rest, lemma_extra_take_step, lemma_line_start_boundary,
    lemma_line_starts, lemma_multi_byte_upto, lemma_non_narrow_upto, lemma_tiling,
    lemma_utf8_len_range, lemma_char_pos_order, line_starts, line_starts_upto, min_int, multi_byte_table,
    multi_byte_upto, non_narrow_table, non_narrow_upto, non_narrow_width_at, positions_increase,
    seq_increases, utf8_len,
};
use crate::width::{char_width, char_width_of};
use crate::text::{lemma_count_split, lemma_count_step, lemma_line_index_exists};

verus! {

/// One loaded unit of source text, with the start of each line, each
/// multi-byte character and each character whose display width is not 1
/// cached at load time. A file never changes once made.
#[derive(Debug, PartialEq, Eq)]
pub struct SourceFile {
    path: SourcePath,
    src: Rc<String>,
    /// The range of the global position space given to this file.
    span: Span,
    /// The position of the first byte of each line.
    lines: Vec<Pos>,
    /// Each character longer than one byte in UTF-8.
    multi_byte_chars: Vec<MultiByteChar>,
    /// Each character whose display width is not 1.
    non_narrow_chars: Vec<NonNarrowChar>,
}

/// A character longer than one byte in UTF-8.
#[derive(Clone, Debug, PartialEq, Eq)]
struct MultiByteChar {
    pos: Pos,
    /// The number of bytes of its encoding: 2, 3 or 4.
    len: u8,
}

/// A character whose display width is not 1.
#[derive(Clone, Debug, PartialEq, Eq)]
struct NonNarrowChar {
    pos: Pos,
    kind: NonNarrowCharKind,
}

#[derive(Clone, Copy, Debug, PartialEq, Eq)]
enum NonNarrowCharKind {
    /// A character of no width.
    ZeroWidth,
    /// A full-width character.
    Wide,
    /// A tab, shown as four spaces.
    Tab,
}

spec fn kind_width(k: NonNarrowCharKind) -> int {
    match k {
        NonNarrowCharKind::ZeroWidth => 0,
        NonNarrowCharKind::Wide => 2,
        NonNarrowCharKind::Tab => 4,
    }
}

spec fn pos_seq(v: Seq<Pos>) -> Seq<int> {
    v.map_values(|p: Pos| p.pos())
}

spec fn multi_byte_seq(v: Seq<MultiByteChar>) -> Seq<(int, int)> {
    v.map_values(|m: MultiByteChar| (m.pos.pos(), m.len as int))
}

spec fn non_narrow_seq(v: Seq<NonNarrowChar>) -> Seq<(int, int)> {
    v.map_values(|c: NonNarrowChar| (c.pos.pos(), kind_width(c.kind)))
}

/// `k` is the index of the line that holds position `p`: the last line that
/// starts at or before `p`.
pub open spec fn is_line_index(lines: Seq<int>, p: int, k: int) -> bool {
    &&& 0 <= k < lines.len()
    &&& lines[k] <= p
    &&& k + 1 < lines.len() ==> p < lines[k + 1]
}

/// The index of the line of `f` that holds position `p`.
pub open spec fn line_of(f: &SourceFile, p: int) -> int {
    choose|k: int| is_line_index(f.line_table(), p, k)
}

/// The 0-based display column of position `p` of `f`.
pub open spec fn display_col(f: &SourceFile, p: int) -> int {
    columns_between(f.text(), f.start(), f.line_table()[line_of(f, p)], p)
}

/// A position lies on one line at most.
pub proof fn lemma_line_index_unique(lines: Seq<int>, p: int, k1: int, k2: int)
    requires
        seq_increases(lines),
        is_line_index(lines, p, k1),
        is_line_index(lines, p, k2),
    ensures
        k1 == k2,
{
    if k1 < k2 {
        assert(lines[k1 + 1] <= lines[k2]);
    } else if k2 < k1 {
        assert(lines[k2 + 1] <= lines[k1]);
    }
}

impl MultiByteChar {
    fn new(pos: Pos, len: u8) -> (r: MultiByteChar)
        ensures
            r.pos == pos,
            r.len == len,
    {
        MultiByteChar { pos, len }
    }

    fn len(&self) -> (r: u8)
        ensures
            r == self.len,
    {
        self.len
    }

    fn pos(&self) -> (r: Pos)
        ensures
            r == self.pos,
    {
        self.pos
    }
}

impl NonNarrowChar {
    /// A character of the given display width: 0, 2, or a tab for any other.
    fn new(pos: Pos, width: usize) -> (r: NonNarrowChar)
        ensures
            r.pos == pos,
            kind_width(r.kind) == if width == 0 {
                0int
            } else if width == 2 {
                2int
            } else {
                4int
            },
    {
        let kind = match width {
            0 => NonNarrowCharKind::ZeroWidth,
            2 => NonNarrowCharKind::Wide,
            _ => NonNarrowCharKind::Tab,
        };
        NonNarrowChar { pos, kind }
    }

    fn pos(&self) -> (r: Pos)
        ensures
            r == self.pos,
    {
        self.pos
    }

    fn width(&self) -> (r: usize)
        ensures
            r == kind_width(self.kind),
    {
        match self.kind {
            NonNarrowCharKind::ZeroWidth => 0,
            NonNarrowCharKind::Wide => 2,
            NonNarrowCharKind::Tab => 4,
        }
    }
}

/// The characters of `s`, in order.
pub(crate) fn chars_of(s: &str) -> (r: Vec<char>)
    ensures
        r@ == s@,
{
    let mut out: Vec<char> = Vec::new();
    for c in it: s.chars()
        invariant
            out@ == it.seq().take(it.index() as int),
            it.seq() == s@,
    {
        out.push(c);
    }
    out
}

/// Number of bytes of the UTF-8 encoding of `c`.
pub(crate) fn utf8_width(c: char) -> (r: u32)
    ensures
        r == utf8_len(c),
{
    let v = c as u32;
    if v < 0x80 {
        1
    } else if v < 0x800 {
        2
    } else if v < 0x10000 {
        3
    } else {
        4
    }
}

impl SourceFile {
    /// The text of the file.
    pub closed spec fn text(&self) -> Seq<char> {
        self.src@
    }

    /// The first position of the file.
    pub closed spec fn start(&self) -> int {
        self.span.lo()
    }

    /// The position just past the last byte of the file.
    pub closed spec fn end(&self) -> int {
        self.span.hi()
    }

    pub closed spec fn spec_span(&self) -> Span {
        self.span
    }

    pub closed spec fn spec_path(&self) -> SourcePath {
        self.path
    }

    /// The start of each line.
    pub closed spec fn line_table(&self) -> Seq<int> {
        pos_seq(self.lines@)
    }

    /// Position and length of each multi-byte character.
    pub closed spec fn multi_byte_view(&self) -> Seq<(int, int)> {
        multi_byte_seq(self.multi_byte_chars@)
    }

    /// Position and display width of each character whose width is not 1.
    pub closed spec fn non_narrow_view(&self) -> Seq<(int, int)> {
        non_narrow_seq(self.non_narrow_chars@)
    }

    /// The file is laid out from its start, at most up to the last
    /// position, and its tables are those of its text.
    #[verifier::type_invariant]
    pub open spec fn inv(&self) -> bool {
        &&& 1 <= self.start()
        &&& self.end() == self.start() + byte_len(self.text())
        &&& self.end() <= u32::MAX
        &&& 4 * byte_len(self.text()) <= usize::MAX
        &&& self.spec_span().lo() == self.start()
        &&& self.spec_span().hi() == self.end()
        &&& self.line_table() == line_starts(self.text(), self.start())
        &&& self.multi_byte_view() == multi_byte_table(self.text(), self.start())
        &&& self.non_narrow_view() == non_narrow_table(self.text(), self.start())
    }

    /// The end of line `k`: the start of the next line, or the end of the
    /// file for the last.
    pub open spec fn line_end(&self, k: int) -> int {
        if k + 1 < self.line_table().len() {
            self.line_table()[k + 1]
        } else {
            self.end()
        }
    }

    /// Index in the text of the first character that begins at or after `p`.
    pub open spec fn char_index(&self, p: int) -> int {
        chars_between(self.text(), self.start(), self.start(), p)
    }

    /// A text of `len` bytes can be laid out from `start`.
    pub open spec fn fits(start: int, len: int) -> bool {
        &&& 1 <= start
        &&& start + len <= u32::MAX
        &&& 4 * len <= usize::MAX
    }

    /// Creates a virtual source file, for tests, from a string.
    pub fn test_file(src: Rc<String>, name: Option<String>, uid: u32, start_pos: Pos) -> (r:
        SourceFile)
        requires
            SourceFile::fits(start_pos.pos(), byte_len(src@)),
        ensures
            r.text() == src@,
            r.start() == start_pos.pos(),
            r.spec_path().virtual_id() == Some(
                (
                    match name {
                        Some(n) => Some(n@),
                        None => None,
                    },
                    uid,
                ),
            ),
            r.spec_path().local_path() is None,
    {
        SourceFile::new(SourcePath::test_file(name, uid), src, start_pos)
    }

    /// Creates a file of a canonical local path and its contents.
    pub fn local_file(path: String, src: Rc<String>, start_pos: Pos) -> (r: SourceFile)
        requires
            SourceFile::fits(start_pos.pos(), byte_len(src@)),
        ensures
            r.text() == src@,
            r.start() == start_pos.pos(),
            r.spec_path().local_path() == Some(path@),
            r.spec_path().virtual_id() is None,
    {
        SourceFile::new(SourcePath::local_file(path), src, start_pos)
    }

    fn new(path: SourcePath, src: Rc<String>, start_pos: Pos) -> (r: SourceFile)
        requires
            SourceFile::fits(start_pos.pos(), byte_len(src@)),
        ensures
            r.text() == src@,
            r.start() == start_pos.pos(),
            r.spec_path() == path,
    {
        proof {
            lemma_byte_len_encoding(src@);
        }
        let len = src.as_str().len();
        let end_pos = Pos::from_usize(start_pos.to_usize() + len);
        let (lines, multi_byte_chars, non_narrow_chars) = SourceFile::analyze(
            src.as_str(),
            start_pos,
        );
        SourceFile {
            src,
            path,
            span: Span::new(start_pos, end_pos),
            lines,
            multi_byte_chars,
            non_narrow_chars,
        }
    }

    /// Gets the name of the file for messages. It cannot serve as a path.
    pub fn name(&self) -> (r: String)
        ensures
            r@ == self.spec_path().spec_readable_name(),
    {
        self.path.readable_name()
    }

    /// Gets the name of the file for messages, with a local path made
    /// relative to `cwd` where it can be.
    pub fn name_in(&self, cwd: &str) -> (r: String)
        ensures
            r@ == self.spec_path().spec_readable_name_in(cwd@),
    {
        self.path.readable_name_in(cwd)
    }

    pub fn path(&self) -> (r: &SourcePath)
        ensures
            *r == self.spec_path(),
    {
        &self.path
    }

    pub fn src(&self) -> (r: Rc<String>)
        ensures
            r@ == self.text(),
    {
        self.src.clone()
    }

    pub fn span(&self) -> (r: Span)
        ensures
            r == self.spec_span(),
            r.lo() == self.start(),
            r.hi() == self.end(),
    {
        proof {
            use_type_invariant(self);
        }
        self.span
    }

    pub fn start_pos(&self) -> (r: Pos)
        ensures
            r.pos() == self.start(),
    {
        self.span.start()
    }

    pub fn end_pos(&self) -> (r: Pos)
        ensures
            r.pos() == self.end(),
    {
        self.span.end()
    }

    pub fn is_local_file(&self) -> (r: bool)
        ensures
            r == self.spec_path().local_path() is Some,
    {
        self.path.is_local_file()
    }

    pub fn is_test_file(&self) -> (r: bool)
        ensures
            r == self.spec_path().virtual_id() is Some,
    {
        self.path.is_test_file()
    }

    /// The position is that of a byte of the file.
    pub fn contains_pos(&self, pos: Pos) -> (r: bool)
        ensures
            r == (self.start() <= pos.pos() < self.end()),
    {
        self.span.contains(pos)
    }

    pub fn is_empty(&self) -> (r: bool)
        ensures
            r == (self.start() == self.end()),
            r == (self.text().len() == 0),
    {
        proof {
            use_type_invariant(self);
            lemma_byte_offset_mono(self.text(), 0, self.text().len() as int);
        }
        self.span.start().to_u32() == self.span.end().to_u32()
    }

    /// Finds the start of every line, every multi-byte character, and every
    /// character whose display width is not 1, in one pass over the text.
    fn analyze(src: &str, start_pos: Pos) -> (r: (Vec<Pos>, Vec<MultiByteChar>, Vec<NonNarrowChar>))
        requires
            start_pos.pos() + byte_len(src@) <= u32::MAX,
        ensures
            pos_seq(r.0@) == line_starts(src@, start_pos.pos()),
            multi_byte_seq(r.1@) == multi_byte_table(src@, start_pos.pos()),
            non_narrow_seq(r.2@) == non_narrow_table(src@, start_pos.pos()),
    {
        let ghost s = src@;
        let ghost start = start_pos.pos();
        let chars = chars_of(src);
        let n = chars.len();
        let mut lines: Vec<Pos> = vec![start_pos];
        let mut multi_byte_chars: Vec<MultiByteChar> = Vec::new();
        let mut non_narrow_chars: Vec<NonNarrowChar> = Vec::new();
        let offset = start_pos.to_u32();
        let mut idx: usize = 0;
        // Bytes taken by the characters before `idx`.
        let mut bytes: u32 = 0;
        assert(pos_seq(lines@) =~= line_starts_upto(s, start, 0));
        assert(multi_byte_seq(multi_byte_chars@) =~= multi_byte_upto(s, start, 0));
        assert(non_narrow_seq(non_narrow_chars@) =~= non_narrow_upto(s, start, 0));
        while idx < n
            invariant
                chars@ == s,
                n == s.len(),
                0 <= idx <= n,
                start == offset,
                bytes == byte_offset(s, idx as int),
                start + byte_len(s) <= u32::MAX,
                pos_seq(lines@) == line_starts_upto(s, start, idx as int),
                multi_byte_seq(multi_byte_chars@) == multi_byte_upto(s, start, idx as int),
                non_narrow_seq(non_narrow_chars@) == non_narrow_upto(s, start, idx as int),
            decreases n - idx,
        {
            let c = chars[idx];
            let char_len = utf8_width(c);
            proof {
                lemma_byte_offset_step(s, idx as int);
                lemma_byte_offset_mono(s, idx as int + 1, n as int);
                lemma_utf8_len_range(c);
            }
            let pos = Pos::from_u32(offset + bytes);
            let ghost old_lines = lines@;
            let ghost old_multi = multi_byte_chars@;
            let ghost old_narrow = non_narrow_chars@;
            if (c as u32) < 0x20 {
                // An ASCII control character.
                if c == '\n' {
                    lines.push(Pos::from_u32(offset + bytes + 1));
                } else if c == '\r' {
                    if !(idx + 1 < n && chars[idx + 1] == '\n') {
                        lines.push(Pos::from_u32(offset + bytes + 1));
                    } else {
                        // The line feed that follows starts the next line.
                        non_narrow_chars.push(NonNarrowChar::new(pos, 0));
                    }
                } else if c == '\t' {
                    non_narrow_chars.push(NonNarrowChar::new(pos, 4));
                } else {
                    non_narrow_chars.push(NonNarrowChar::new(pos, 0));
                }
            } else if (c as u32) >= 0x7F {
                // DEL, or a character beyond ASCII.
                if char_len > 1 {
                    multi_byte_chars.push(MultiByteChar::new(pos, char_len as u8));
                }
                let char_width = match char_width(c) {
                    Some(w) => w,
                    None => 0,
                };
                if char_width != 1 {
                    non_narrow_chars.push(NonNarrowChar::new(pos, char_width));
                }
            }
            proof {
                let i = idx as int;
                assert(s[i] == c);
                if ends_line(s, i) {
                    assert(lines@ == old_lines.push(lines@.last()));
                    assert(pos_seq(lines@) =~= pos_seq(old_lines).push(char_pos(s, start, i + 1)));
                } else {
                    assert(lines@ == old_lines);
                }
                if utf8_len(c) > 1 {
                    assert(multi_byte_seq(multi_byte_chars@) =~= multi_byte_seq(old_multi).push(
                        (char_pos(s, start, i), utf8_len(c)),
                    ));
                } else {
                    assert(multi_byte_chars@ == old_multi);
                }
                match non_narrow_width_at(s, i) {
                    Some(w) => {
                        assert(non_narrow_seq(non_narrow_chars@) =~= non_narrow_seq(
                            old_narrow,
                        ).push((char_pos(s, start, i), w)));
                    },
                    None => {
                        assert(non_narrow_chars@ == old_narrow);
                    },
                }
            }
            bytes = bytes + char_len;
            idx = idx + 1;
        }
        // A line break at the very end opens no further line.
        let end = offset + bytes;
        if lines.len() > 1 && lines[lines.len() - 1].to_u32() == end {
            let ghost all = lines@;
            lines.pop();
            assert(pos_seq(lines@) =~= pos_seq(all).drop_last());
        }
        (lines, multi_byte_chars, non_narrow_chars)
    }

    /// Finds the line that holds the position: the index of the last line
    /// that starts at or before it, `None` where the position precedes the
    /// file.
    pub(crate) fn lookup_line_at_pos(&self, pos: Pos) -> (r: Option<usize>)
        ensures
            match r {
                None => pos.pos() < self.start(),
                Some(k) => is_line_index(self.line_table(), pos.pos(), k as int),
            },
    {
        proof {
            use_type_invariant(self);
            lemma_line_starts(self.text(), self.start());
        }
        let ghost t = self.line_table();
        let p = pos.to_u32();
        if p < self.lines[0].to_u32() {
            return None;
        }
        let mut lo: usize = 0;
        let mut hi: usize = self.lines.len();
        while hi - lo > 1
            invariant
                t == self.line_table(),
                t.len() == self.lines@.len(),
                seq_increases(t),
                0 <= lo < hi <= t.len(),
                t[lo as int] <= p,
                forall|k: int| hi <= k < t.len() ==> p < #[trigger] t[k],
            decreases hi - lo,
        {
            let mid = lo + (hi - lo) / 2;
            if self.lines[mid].to_u32() <= p {
                lo = mid;
            } else {
                assert forall|k: int| mid <= k < t.len() implies p < #[trigger] t[k] by {
                    if k > mid {
                        assert(t[mid as int] < t[k]);
                    }
                }
                hi = mid;
            }
        }
        Some(lo)
    }

    /// The span of line `line_index`, from its start to the start of the
    /// next line or the end of the file.
    pub(crate) fn lookup_line_span(&self, line_index: usize) -> (r: Span)
        requires
            line_index < self.line_table().len(),
        ensures
            r.lo() == self.line_table()[line_index as int],
            r.hi() == self.line_end(line_index as int),
    {
        proof {
            use_type_invariant(self);
            lemma_line_starts(self.text(), self.start());
            lemma_byte_offset_mono(self.text(), 0, self.text().len() as int);
        }
        let ghost t = self.line_table();
        assert(self.lines@[line_index as int].pos() == t[line_index as int]);
        if self.is_empty() {
            Span::new(self.span.start(), self.span.end())
        } else if line_index == self.lines.len() - 1 {
            Span::new(self.lines[line_index], self.span.end())
        } else {
            assert(self.lines@[line_index + 1].pos() == t[line_index + 1]);
            assert(t[line_index as int] < t[line_index + 1]);
            Span::new(self.lines[line_index], self.lines[line_index + 1])
        }
    }

    /// Index of the first multi-byte character at or after `a`.
    fn first_multi_byte_from(&self, a: u32) -> (r: usize)
        requires
            positions_increase(self.multi_byte_view()),
        ensures
            r <= self.multi_byte_view().len(),
            forall|k: int| 0 <= k < r ==> (#[trigger] self.multi_byte_view()[k]).0 < a,
            forall|k: int|
                r <= k < self.multi_byte_view().len() ==> a <= (
                #[trigger] self.multi_byte_view()[k]).0,
    {
        let ghost t = self.multi_byte_view();
        let mut lo: usize = 0;
        let mut hi: usize = self.multi_byte_chars.len();
        while lo < hi
            invariant
                t == self.multi_byte_view(),
                t.len() == self.multi_byte_chars@.len(),
                positions_increase(t),
                0 <= lo <= hi <= t.len(),
                forall|k: int| 0 <= k < lo ==> (#[trigger] t[k]).0 < a,
                forall|k: int| hi <= k < t.len() ==> a <= (#[trigger] t[k]).0,
            decreases hi - lo,
        {
            let mid = lo + (hi - lo) / 2;
            assert(t[mid as int].0 == self.multi_byte_chars@[mid as int].pos.pos());
            if self.multi_byte_chars[mid].pos().to_u32() < a {
                assert forall|k: int| 0 <= k < mid + 1 implies (#[trigger] t[k]).0 < a by {
                    if k < mid {
                        assert(t[k].0 < t[mid as int].0);
                    }
                }
                lo = mid + 1;
            } else {
                assert forall|k: int| mid <= k < t.len() implies a <= (#[trigger] t[k]).0 by {
                    if k > mid {
                        assert(t[mid as int].0 < t[k].0);
                    }
                }
                hi = mid;
            }
        }
        lo
    }

    /// Index of the first non-narrow character at or after `a`.
    fn first_non_narrow_from(&self, a: u32) -> (r: usize)
        requires
            positions_increase(self.non_narrow_view()),
        ensures
            r <= self.non_narrow_view().len(),
            forall|k: int| 0 <= k < r ==> (#[trigger] self.non_narrow_view()[k]).0 < a,
            forall|k: int|
                r <= k < self.non_narrow_view().len() ==> a <= (
                #[trigger] self.non_narrow_view()[k]).0,
    {
        let ghost t = self.non_narrow_view();
        let mut lo: usize = 0;
        let mut hi: usize = self.non_narrow_chars.len();
        while lo < hi
            invariant
                t == self.non_narrow_view(),
                t.len() == self.non_narrow_chars@.len(),
                positions_increase(t),
                0 <= lo <= hi <= t.len(),
                forall|k: int| 0 <= k < lo ==> (#[trigger] t[k]).0 < a,
                forall|k: int| hi <= k < t.len() ==> a <= (#[trigger] t[k]).0,
            decreases hi - lo,
        {
            let mid = lo + (hi - lo) / 2;
            assert(t[mid as int].0 == self.non_narrow_chars@[mid as int].pos.pos());
            if self.non_narrow_chars[mid].pos().to_u32() < a {
                assert forall|k: int| 0 <= k < mid + 1 implies (#[trigger] t[k]).0 < a by {
                    if k < mid {
                        assert(t[k].0 < t[mid as int].0);
                    }
                }
                lo = mid + 1;
            } else {
                assert forall|k: int| mid <= k < t.len() implies a <= (#[trigger] t[k]).0 by {
                    if k > mid {
                        assert(t[mid as int].0 < t[k].0);
                    }
                }
                hi = mid;
            }
        }
        lo
    }

    /// Number of characters that begin in `[a, p)`, where `a` is the
    /// position of character `j`: the bytes of the range less those beyond
    /// the first of each multi-byte character there.
    fn count_chars(&self, a: Pos, p: Pos, Ghost(j): Ghost<int>) -> (r: usize)
        requires
            0 <= j <= self.text().len(),
            a.pos() == char_pos(self.text(), self.start(), j),
            a.pos() <= p.pos() <= self.end(),
        ensures
            r == chars_between(self.text(), self.start(), a.pos(), p.pos()),
            r <= p.pos() - a.pos(),
    {
        proof {
            use_type_invariant(self);
        }
        let ghost s = self.text();
        let ghost start = self.start();
        let ghost n = s.len() as int;
        let ghost t = self.multi_byte_view();
        proof {
            lemma_multi_byte_upto(s, start, n);
        }
        let a32 = a.to_u32();
        let p32 = p.to_u32();
        let first = self.first_multi_byte_from(a32);
        let mut k = first;
        let mut extra: u64 = 0;
        proof {
            lemma_extra_take_none(t, a.pos(), p.pos(), first as int);
            lemma_byte_offset_mono(s, 0, n);
        }
        while k < self.multi_byte_chars.len() && self.multi_byte_chars[k].pos().to_u32() < p32
            invariant
                t == self.multi_byte_view(),
                t.len() == self.multi_byte_chars@.len(),
                positions_increase(t),
                forall|i: int|
                    0 <= i < t.len() ==> {
                        let e = #[trigger] t[i];
                        2 <= e.1 <= 4
                    },
                first <= k <= t.len(),
                forall|i: int| first <= i < t.len() ==> a32 <= (#[trigger] t[i]).0,
                extra == extra_bytes(t.take(k as int), a.pos(), p.pos()),
                extra <= 3 * k,
                t.len() <= u32::MAX,
                a32 == a.pos(),
                p32 == p.pos(),
            decreases t.len() - k,
        {
            let m = &self.multi_byte_chars[k];
            let q = m.pos().to_u32();
            let len = m.len() as u32;
            assert(t[k as int] == (q as int, len as int));
            let clipped = if len <= p32 - q {
                len
            } else {
                p32 - q
            };
            proof {
                lemma_extra_take_step(t, a.pos(), p.pos(), k as int);
                assert(a.pos() <= t[k as int].0 < p.pos());
                assert(min_int(len as int, p32 - q) == clipped);
                assert(extra_bytes(t.take(k + 1), a.pos(), p.pos()) == extra + clipped - 1);
            }
            extra = extra + (clipped - 1) as u64;
            k = k + 1;
        }
        proof {
            assert forall|i: int| k <= i < t.len() implies !(a.pos() <= (#[trigger] t[i]).0
                < p.pos()) by {
                if i > k {
                    assert(t[k as int].0 < t[i].0);
                }
            }
            lemma_extra_take_rest(t, a.pos(), p.pos(), k as int);
            lemma_byte_offset_mono(s, 0, n);
            lemma_tiling(s, start, j, n, p.pos());
            lemma_extra_bytes_nonneg(t, a.pos(), p.pos());
            lemma_count_bounds(s, start, a.pos(), p.pos(), p.pos(), n);
        }
        ((p32 - a32) as u64 - extra) as usize
    }

    /// Display widths and number of the non-narrow characters that begin in
    /// `[a, p)`.
    fn non_narrow_widths(&self, a: Pos, p: Pos) -> (r: (u64, u64))
        requires
            a.pos() <= p.pos(),
        ensures
            r.0 - r.1 == extra_columns(self.non_narrow_view(), a.pos(), p.pos()),
            r.1 <= self.non_narrow_view().len(),
            r.0 <= 4 * self.non_narrow_view().len(),
    {
        proof {
            use_type_invariant(self);
        }
        let ghost s = self.text();
        let ghost start = self.start();
        let ghost n = s.len() as int;
        let ghost t = self.non_narrow_view();
        proof {
            lemma_non_narrow_upto(s, start, n);
            lemma_byte_offset_mono(s, 0, n);
        }
        let a32 = a.to_u32();
        let p32 = p.to_u32();
        let first = self.first_non_narrow_from(a32);
        let mut k = first;
        let mut width: u64 = 0;
        let mut count: u64 = 0;
        proof {
            lemma_extra_take_none(t, a.pos(), p.pos(), first as int);
        }
        while k < self.non_narrow_chars.len() && self.non_narrow_chars[k].pos().to_u32() < p32
            invariant
                t == self.non_narrow_view(),
                t.len() == self.non_narrow_chars@.len(),
                positions_increase(t),
                forall|i: int| 0 <= i < t.len() ==> 0 <= (#[trigger] t[i]).1 <= 4,
                first <= k <= t.len(),
                forall|i: int| first <= i < t.len() ==> a32 <= (#[trigger] t[i]).0,
                width - count == extra_columns(t.take(k as int), a.pos(), p.pos()),
                count <= k - first,
                width <= 4 * k,
                t.len() <= u32::MAX,
                a32 == a.pos(),
                p32 == p.pos(),
            decreases t.len() - k,
        {
            let c = &self.non_narrow_chars[k];
            assert(t[k as int] == (c.pos.pos(), kind_width(c.kind)));
            proof {
                lemma_extra_take_step(t, a.pos(), p.pos(), k as int);
            }
            width = width + c.width() as u64;
            count = count + 1;
            k = k + 1;
        }
        proof {
            assert forall|i: int| k <= i < t.len() implies !(a.pos() <= (#[trigger] t[i]).0
                < p.pos()) by {
                if i > k {
                    assert(t[k as int].0 < t[i].0);
                }
            }
            lemma_extra_take_rest(t, a.pos(), p.pos(), k as int);
        }
        (width, count)
    }

    /// Looks up the 1-based line and 1-based column of a position of the
    /// file. The column counts the characters that begin between the start
    /// of the line and the position.
    pub(crate) fn lookup_line_and_col(&self, pos: Pos) -> (r: (usize, usize))
        requires
            self.start() <= pos.pos() <= self.end(),
        ensures
            1 <= r.0,
            is_line_index(self.line_table(), pos.pos(), r.0 - 1),
            r.1 == 1 + chars_between(
                self.text(),
                self.start(),
                self.line_table()[r.0 - 1],
                pos.pos(),
            ),
    {
        proof {
            use_type_invariant(self);
            lemma_line_starts(self.text(), self.start());
            lemma_byte_offset_mono(self.text(), 0, self.text().len() as int);
        }
        match self.lookup_line_at_pos(pos) {
            Some(line) => {
                let line_start = self.lines[line];
                let ghost j = lemma_line_start_boundary(self.text(), self.start(), line as int);
                assert(line_start.pos() == self.line_table()[line as int]);
                let col = self.count_chars(line_start, pos, Ghost(j));
                (line + 1, col + 1)
            },
            None => (0, 0),
        }
    }

    /// Looks up the 1-based line, 1-based column and 0-based display column
    /// of a position of the file.
    pub(crate) fn lookup_line_col_and_col_display(&self, pos: Pos) -> (r: (usize, usize, usize))
        requires
            self.start() <= pos.pos() <= self.end(),
        ensures
            1 <= r.0,
            is_line_index(self.line_table(), pos.pos(), r.0 - 1),
            r.1 == 1 + chars_between(
                self.text(),
                self.start(),
                self.line_table()[r.0 - 1],
                pos.pos(),
            ),
            r.2 == columns_between(
                self.text(),
                self.start(),
                self.line_table()[r.0 - 1],
                pos.pos(),
            ),
    {
        proof {
            use_type_invariant(self);
            lemma_line_starts(self.text(), self.start());
        }
        let (line, col) = self.lookup_line_and_col(pos);
        let line_start = self.lines[line - 1];
        assert(line_start.pos() == self.line_table()[line - 1]);
        let (width, count) = self.non_narrow_widths(line_start, pos);
        proof {
            let s = self.text();
            let n = s.len() as int;
            lemma_columns(s, self.start(), line_start.pos(), pos.pos(), n);
            lemma_columns_bounds(s, self.start(), line_start.pos(), pos.pos(), n);
            lemma_non_narrow_upto(s, self.start(), n);
            lemma_byte_offset_mono(s, 0, n);
            assert(col - 1 == count_upto(s, self.start(), line_start.pos(), pos.pos(), n));
            assert(self.non_narrow_view() == non_narrow_upto(s, self.start(), n));
            lemma_count_bounds(s, self.start(), line_start.pos(), pos.pos(), pos.pos(), n);
        }
        let col_display = ((col - 1) as u64 + width - count) as usize;
        (line, col, col_display)
    }

    /// The text of line `line`: the characters that begin on it.
    pub(crate) fn lookup_line_source(&self, line: usize) -> (r: String)
        requires
            line < self.line_table().len(),
        ensures
            r@ == self.text().subrange(
                self.char_index(self.line_table()[line as int]),
                self.char_index(self.line_end(line as int)),
            ),
    {
        proof {
            use_type_invariant(self);
            lemma_line_starts(self.text(), self.start());
        }
        let span = self.lookup_line_span(line);
        proof {
            use_type_invariant(&span);
        }
        let ghost s = self.text();
        let ghost n = s.len() as int;
        assert(self.start() == char_pos(s, self.start(), 0));
        let from = self.count_chars(self.span.start(), span.start(), Ghost(0));
        let to = self.count_chars(self.span.start(), span.end(), Ghost(0));
        proof {
            lemma_count_bounds(s, self.start(), self.start(), span.lo(), span.hi(), n);
            lemma_count_bounds(s, self.start(), self.start(), span.hi(), span.hi(), n);
        }
        self.src.as_str().substring_char(from, to).to_owned()
    }

    /// The characters that begin in `[a, b)`, for positions of the file.
    pub(crate) fn source_between(&self, a: Pos, b: Pos) -> (r: String)
        requires
            self.start() <= a.pos() <= b.pos() <= self.end(),
        ensures
            r@ == self.text().subrange(self.char_index(a.pos()), self.char_index(b.pos())),
    {
        proof {
            use_type_invariant(self);
        }
        let ghost s = self.text();
        let ghost n = s.len() as int;
        assert(self.start() == char_pos(s, self.start(), 0));
        let from = self.count_chars(self.span.start(), a, Ghost(0));
        let to = self.count_chars(self.span.start(), b, Ghost(0));
        proof {
            lemma_count_bounds(s, self.start(), self.start(), a.pos(), b.pos(), n);
            lemma_count_bounds(s, self.start(), self.start(), b.pos(), b.pos(), n);
        }
        self.src.as_str().substring_char(from, to).to_owned()
    }
}

/// Every position of a file lies on a line whose span holds it, and its
/// column counts the characters of the text from the start of that line up
/// to the position.
pub proof fn lemma_line_and_col(f: &SourceFile, p: int)
    requires
        f.inv(),
        f.start() <= p <= f.end(),
    ensures
        is_line_index(f.line_table(), p, line_of(f, p)),
        f.line_table()[line_of(f, p)] <= p <= f.line_end(line_of(f, p)),
        chars_between(f.text(), f.start(), f.line_table()[line_of(f, p)], p) == f.char_index(p)
            - f.char_index(f.line_table()[line_of(f, p)]),
{
    let s = f.text();
    lemma_line_starts(s, f.start());
    let k0 = lemma_line_index_exists(f.line_table(), p);
    assert(is_line_index(f.line_table(), p, k0));
    let k = line_of(f, p);
    let ls = f.line_table()[k];
    lemma_count_split(s, f.start(), f.start(), ls, p, s.len() as int);
}

/// Scanning forward over one character that does not end a line keeps the
/// line, adds one to the column, and adds the character's display width to
/// the display column.
pub proof fn lemma_next_char(f: &SourceFile, i: int)
    requires
        f.inv(),
        0 <= i < f.text().len(),
        !ends_line(f.text(), i),
    ensures
        ({
            let s = f.text();
            let p = char_pos(s, f.start(), i);
            let q = char_pos(s, f.start(), i + 1);
            let k = line_of(f, p);
            let ls = f.line_table()[k];
            &&& line_of(f, q) == k
            &&& chars_between(s, f.start(), ls, q) == chars_between(s, f.start(), ls, p) + 1
            &&& columns_between(s, f.start(), ls, q) == columns_between(s, f.start(), ls, p)
                + display_width_at(s, i)
        }),
{
    let s = f.text();
    let n = s.len() as int;
    let start = f.start();
    let p = char_pos(s, start, i);
    let q = char_pos(s, start, i + 1);
    let t = f.line_table();
    lemma_line_starts(s, start);
    lemma_char_pos_order(s, start, 0, i);
    lemma_char_pos_order(s, start, i, i + 1);
    lemma_byte_offset_mono(s, i + 1, n);
    lemma_line_and_col(f, p);
    let k = line_of(f, p);
    if k + 1 < t.len() {
        let j = lemma_line_start_boundary(s, start, k + 1);
        assert(t[k + 1] != char_pos(s, start, i + 1));
        lemma_char_pos_order(s, start, j, i);
        lemma_char_pos_order(s, start, i, j);
        lemma_char_pos_order(s, start, j, i + 1);
        lemma_char_pos_order(s, start, i + 1, j);
    }
    assert(is_line_index(t, q, k));
    lemma_line_and_col(f, q);
    lemma_line_index_unique(t, q, k, line_of(f, q));
    lemma_count_step(s, start, t[k], i, n);
}

} // verus!
