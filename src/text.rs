//! A model of source text as a sequence of characters laid out in UTF-8 from a
//! start position, and of the tables that a source file caches about it.
use vstd::prelude::*;

use crate::width::char_width_of;
use vstd::utf8::{char_is_scalar, encode_scalar, encode_utf8};

verus! {

/// Number of bytes that the UTF-8 encoding of `c` takes.
pub open spec fn utf8_len(c: char) -> int {
    if (c as u32) < 0x80 {
        1
    } else if (c as u32) < 0x800 {
        2
    } else if (c as u32) < 0x10000 {
        3
    } else {
        4
    }
}

/// Number of bytes that the first `i` characters of `s` take.
pub open spec fn byte_offset(s: Seq<char>, i: int) -> int
    decreases i,
{
    if i <= 0 {
        0
    } else {
        byte_offset(s, i - 1) + utf8_len(s[i - 1])
    }
}

/// Number of bytes that `s` takes in UTF-8.
pub open spec fn byte_len(s: Seq<char>) -> int {
    byte_offset(s, s.len() as int)
}

/// Position of the `i`-th character of `s` when `s` is laid out from `start`.
pub open spec fn char_pos(s: Seq<char>, start: int, i: int) -> int {
    start + byte_offset(s, i)
}

/// The character at index `i` ends a line: a line feed, or a carriage return
/// that no line feed follows.
pub open spec fn ends_line(s: Seq<char>, i: int) -> bool {
    s[i] == '\n' || (s[i] == '\r' && !(i + 1 < s.len() && s[i + 1] == '\n'))
}

/// Line starts found among the first `n` characters: `start`, then the
/// position after each character that ends a line.
pub open spec fn line_starts_upto(s: Seq<char>, start: int, n: int) -> Seq<int>
    decreases n,
{
    if n <= 0 {
        seq![start]
    } else if ends_line(s, n - 1) {
        line_starts_upto(s, start, n - 1).push(char_pos(s, start, n))
    } else {
        line_starts_upto(s, start, n - 1)
    }
}

/// The start of every line of `s`. A line break at the very end of the text
/// opens no further line.
pub open spec fn line_starts(s: Seq<char>, start: int) -> Seq<int> {
    let all = line_starts_upto(s, start, s.len() as int);
    if all.len() > 1 && all.last() == start + byte_len(s) {
        all.drop_last()
    } else {
        all
    }
}

/// Position and UTF-8 length of each character longer than one byte among the
/// first `n` characters.
pub open spec fn multi_byte_upto(s: Seq<char>, start: int, n: int) -> Seq<(int, int)>
    decreases n,
{
    if n <= 0 {
        seq![]
    } else if utf8_len(s[n - 1]) > 1 {
        multi_byte_upto(s, start, n - 1).push((char_pos(s, start, n - 1), utf8_len(s[n - 1])))
    } else {
        multi_byte_upto(s, start, n - 1)
    }
}

pub open spec fn multi_byte_table(s: Seq<char>, start: int) -> Seq<(int, int)> {
    multi_byte_upto(s, start, s.len() as int)
}

/// Display width of `c` in columns where it is not 1: a tab takes 4, another
/// control character 0, and any other character the width that the Unicode
/// width tables give (none counting as 0), 2 for a wide one, 4 beyond.
pub open spec fn non_narrow_width(c: char) -> Option<int> {
    if (c as u32) < 0x20 {
        if c == '\n' || c == '\r' {
            None
        } else if c == '\t' {
            Some(4)
        } else {
            Some(0)
        }
    } else if (c as u32) < 0x7F {
        None
    } else {
        let w = match char_width_of(c) {
            Some(w) => w as int,
            None => 0,
        };
        if w == 1 {
            None
        } else if w == 0 {
            Some(0)
        } else if w == 2 {
            Some(2)
        } else {
            Some(4)
        }
    }
}

/// Display width, where it is not 1, of the character at index `i`. A
/// carriage return that a line feed follows is a control character of no
/// width; any other character is as `non_narrow_width` says.
pub open spec fn non_narrow_width_at(s: Seq<char>, i: int) -> Option<int> {
    if s[i] == '\r' && i + 1 < s.len() && s[i + 1] == '\n' {
        Some(0)
    } else {
        non_narrow_width(s[i])
    }
}

/// Number of columns that the character at index `i` takes on screen.
pub open spec fn display_width_at(s: Seq<char>, i: int) -> int {
    match non_narrow_width_at(s, i) {
        Some(w) => w,
        None => 1,
    }
}

/// Position and display width of each character among the first `n` whose
/// width is not 1.
pub open spec fn non_narrow_upto(s: Seq<char>, start: int, n: int) -> Seq<(int, int)>
    decreases n,
{
    if n <= 0 {
        seq![]
    } else {
        match non_narrow_width_at(s, n - 1) {
            Some(w) => non_narrow_upto(s, start, n - 1).push((char_pos(s, start, n - 1), w)),
            None => non_narrow_upto(s, start, n - 1),
        }
    }
}

pub open spec fn non_narrow_table(s: Seq<char>, start: int) -> Seq<(int, int)> {
    non_narrow_upto(s, start, s.len() as int)
}

/// Number of characters among the first `n` that begin in `[a, p)`.
pub open spec fn count_upto(s: Seq<char>, start: int, a: int, p: int, n: int) -> int
    decreases n,
{
    if n <= 0 {
        0
    } else {
        count_upto(s, start, a, p, n - 1) + if a <= char_pos(s, start, n - 1) < p {
            1int
        } else {
            0int
        }
    }
}

/// Number of characters of `s` that begin in `[a, p)`.
pub open spec fn chars_between(s: Seq<char>, start: int, a: int, p: int) -> int {
    count_upto(s, start, a, p, s.len() as int)
}

/// Columns taken by the characters among the first `n` that begin in `[a, p)`.
pub open spec fn columns_upto(s: Seq<char>, start: int, a: int, p: int, n: int) -> int
    decreases n,
{
    if n <= 0 {
        0
    } else {
        columns_upto(s, start, a, p, n - 1) + if a <= char_pos(s, start, n - 1) < p {
            display_width_at(s, n - 1)
        } else {
            0
        }
    }
}

/// Columns taken by the characters of `s` that begin in `[a, p)`.
pub open spec fn columns_between(s: Seq<char>, start: int, a: int, p: int) -> int {
    columns_upto(s, start, a, p, s.len() as int)
}

pub open spec fn min_int(x: int, y: int) -> int {
    if x <= y {
        x
    } else {
        y
    }
}

/// Bytes beyond the first of each multi-byte character of the table that
/// begins in `[a, p)`, counting only its bytes below `p`.
pub open spec fn extra_bytes(t: Seq<(int, int)>, a: int, p: int) -> int
    decreases t.len(),
{
    if t.len() == 0 {
        0
    } else {
        extra_bytes(t.drop_last(), a, p) + if a <= t.last().0 < p {
            min_int(t.last().1, p - t.last().0) - 1
        } else {
            0
        }
    }
}

/// Columns beyond one of each non-narrow character of the table that begins
/// in `[a, p)` (negative for zero-width characters).
pub open spec fn extra_columns(t: Seq<(int, int)>, a: int, p: int) -> int
    decreases t.len(),
{
    if t.len() == 0 {
        0
    } else {
        extra_columns(t.drop_last(), a, p) + if a <= t.last().0 < p {
            t.last().1 - 1
        } else {
            0
        }
    }
}

/// Positions in the table rise strictly.
pub open spec fn positions_increase(t: Seq<(int, int)>) -> bool {
    forall|i: int, j: int| 0 <= i < j < t.len() ==> t[i].0 < t[j].0
}

pub open spec fn seq_increases(t: Seq<int>) -> bool {
    forall|i: int, j: int| 0 <= i < j < t.len() ==> t[i] < t[j]
}

// ---------------------------------------------------------------------------
// Lemmas

pub proof fn lemma_utf8_len_range(c: char)
    ensures
        1 <= utf8_len(c) <= 4,
{
}

pub proof fn lemma_byte_offset_step(s: Seq<char>, i: int)
    requires
        0 <= i,
    ensures
        byte_offset(s, i + 1) == byte_offset(s, i) + utf8_len(s[i]),
{
}

/// Offsets grow strictly with the index.
pub proof fn lemma_byte_offset_mono(s: Seq<char>, i: int, j: int)
    requires
        0 <= i <= j,
    ensures
        byte_offset(s, i) + (j - i) <= byte_offset(s, j),
        byte_offset(s, j) <= byte_offset(s, i) + 4 * (j - i),
        byte_offset(s, i) >= 0,
    decreases j - i,
{
    if i < j {
        lemma_byte_offset_mono(s, i, j - 1);
    } else {
        lemma_byte_offset_nonneg(s, i);
    }
}

pub proof fn lemma_byte_offset_nonneg(s: Seq<char>, i: int)
    ensures
        byte_offset(s, i) >= 0,
    decreases i,
{
    if i > 0 {
        lemma_byte_offset_nonneg(s, i - 1);
    }
}


/// The positions of characters rise strictly with their index.
pub proof fn lemma_char_pos_order(s: Seq<char>, start: int, i: int, j: int)
    requires
        0 <= i,
        0 <= j,
    ensures
        i < j ==> char_pos(s, start, i) < char_pos(s, start, j),
        i == j <==> char_pos(s, start, i) == char_pos(s, start, j),
{
    if i <= j {
        lemma_byte_offset_mono(s, i, j);
    } else {
        lemma_byte_offset_mono(s, j, i);
    }
}

/// The line starts found among the first `n` characters begin with `start`,
/// rise strictly, fall on character boundaries, and none follows a character
/// that does not end a line.
pub proof fn lemma_line_starts_upto(s: Seq<char>, start: int, n: int)
    requires
        0 <= n <= s.len(),
    ensures
        line_starts_upto(s, start, n).len() >= 1,
        line_starts_upto(s, start, n)[0] == start,
        line_starts_upto(s, start, n).len() <= n + 1,
        seq_increases(line_starts_upto(s, start, n)),
        forall|k: int, i: int|
            0 < k < line_starts_upto(s, start, n).len() && 0 <= i < n && !ends_line(s, i)
                ==> #[trigger] line_starts_upto(s, start, n)[k] != #[trigger] char_pos(
                s,
                start,
                i + 1,
            ),
        forall|k: int|
            #![trigger line_starts_upto(s, start, n)[k]]
            0 <= k < line_starts_upto(s, start, n).len() ==> exists|j: int|
                0 <= j <= n && #[trigger] char_pos(s, start, j) == line_starts_upto(
                    s,
                    start,
                    n,
                )[k],
        forall|k: int|
            0 <= k < line_starts_upto(s, start, n).len() ==> start <= #[trigger] line_starts_upto(
                s,
                start,
                n,
            )[k] <= char_pos(s, start, n),
    decreases n,
{
    lemma_byte_offset_nonneg(s, n);
    let cur = line_starts_upto(s, start, n);
    if n == 0 {
        assert(char_pos(s, start, 0) == cur[0]);
    } else {
        lemma_line_starts_upto(s, start, n - 1);
        let prev = line_starts_upto(s, start, n - 1);
        lemma_char_pos_order(s, start, n - 1, n);
        if ends_line(s, n - 1) {
            assert(cur == prev.push(char_pos(s, start, n)));
            assert forall|k: int, i: int|
                0 < k < cur.len() && 0 <= i < n && !ends_line(s, i) implies #[trigger] cur[k]
                != #[trigger] char_pos(s, start, i + 1) by {
                if k < prev.len() {
                    assert(cur[k] == prev[k]);
                    if i == n - 1 {
                        assert(false);
                    }
                } else {
                    lemma_char_pos_order(s, start, i + 1, n);
                }
            }
            assert forall|k: int| #![trigger cur[k]] 0 <= k < cur.len() implies exists|j: int|
                0 <= j <= n && #[trigger] char_pos(s, start, j) == cur[k] by {
                if k < prev.len() {
                    assert(cur[k] == prev[k]);
                } else {
                    assert(char_pos(s, start, n) == cur[k]);
                }
            }
        } else {
            assert forall|k: int, i: int|
                0 < k < cur.len() && 0 <= i < n && !ends_line(s, i) implies #[trigger] cur[k]
                != #[trigger] char_pos(s, start, i + 1) by {
                if i < n - 1 {
                    assert(cur[k] == prev[k]);
                } else {
                    lemma_line_starts_upto(s, start, n - 1);
                    assert(prev[k] <= char_pos(s, start, n - 1));
                }
            }
        }
    }
}

/// The line starts of a text begin with `start`, rise strictly, stay below
/// the end of a non-empty text, fall on character boundaries, and none
/// follows a character that does not end a line.
pub proof fn lemma_line_starts(s: Seq<char>, start: int)
    ensures
        line_starts(s, start).len() >= 1,
        line_starts(s, start)[0] == start,
        line_starts(s, start).len() <= s.len() + 1,
        seq_increases(line_starts(s, start)),
        forall|k: int, i: int|
            0 < k < line_starts(s, start).len() && 0 <= i < s.len() && !ends_line(s, i)
                ==> #[trigger] line_starts(s, start)[k] != #[trigger] char_pos(s, start, i + 1),
        forall|k: int|
            #![trigger line_starts(s, start)[k]]
            0 <= k < line_starts(s, start).len() ==> exists|j: int|
                0 <= j <= s.len() && #[trigger] char_pos(s, start, j) == line_starts(s, start)[k],
        forall|k: int|
            0 <= k < line_starts(s, start).len() ==> start <= #[trigger] line_starts(s, start)[k]
                <= start + byte_len(s),
        forall|k: int|
            0 < k < line_starts(s, start).len() ==> #[trigger] line_starts(s, start)[k] < start
                + byte_len(s),
{
    let n = s.len() as int;
    lemma_line_starts_upto(s, start, n);
    let all = line_starts_upto(s, start, n);
    let ls = line_starts(s, start);
    if all.len() > 1 && all.last() == start + byte_len(s) {
        assert forall|k: int| 0 < k < ls.len() implies #[trigger] ls[k] < start + byte_len(s) by {
            assert(ls[k] == all[k]);
            assert(all[k] < all[all.len() - 1]);
        }
        assert forall|k: int, i: int|
            0 < k < ls.len() && 0 <= i < n && !ends_line(s, i) implies #[trigger] ls[k]
            != #[trigger] char_pos(s, start, i + 1) by {
            assert(ls[k] == all[k]);
        }
        assert forall|k: int| #![trigger ls[k]] 0 <= k < ls.len() implies exists|j: int|
            0 <= j <= n && #[trigger] char_pos(s, start, j) == ls[k] by {
            assert(ls[k] == all[k]);
        }
    } else {
        assert forall|k: int| 0 < k < ls.len() implies #[trigger] ls[k] < start + byte_len(s) by {
            assert(all[k] <= start + byte_len(s));
        }
    }
}

/// Every line start is the position of some character, or the end.
pub proof fn lemma_line_start_boundary(s: Seq<char>, start: int, k: int) -> (j: int)
    requires
        0 <= k < line_starts(s, start).len(),
    ensures
        0 <= j <= s.len(),
        line_starts(s, start)[k] == char_pos(s, start, j),
{
    lemma_line_starts(s, start);
    choose|j: int| 0 <= j <= s.len() && #[trigger] char_pos(s, start, j) == line_starts(s, start)[k]
}

/// The multi-byte table among the first `n` characters rises strictly, and
/// each entry lies within the bytes of those characters.
pub proof fn lemma_multi_byte_upto(s: Seq<char>, start: int, n: int)
    requires
        0 <= n <= s.len(),
    ensures
        positions_increase(multi_byte_upto(s, start, n)),
        multi_byte_upto(s, start, n).len() <= n,
        forall|k: int|
            0 <= k < multi_byte_upto(s, start, n).len() ==> {
                let e = #[trigger] multi_byte_upto(s, start, n)[k];
                &&& start <= e.0
                &&& 2 <= e.1 <= 4
                &&& e.0 + e.1 <= char_pos(s, start, n)
            },
    decreases n,
{
    lemma_byte_offset_nonneg(s, n);
    if n > 0 {
        lemma_multi_byte_upto(s, start, n - 1);
        lemma_byte_offset_mono(s, 0, n - 1);
        let prev = multi_byte_upto(s, start, n - 1);
        let cur = multi_byte_upto(s, start, n);
        if utf8_len(s[n - 1]) > 1 {
            assert(cur == prev.push((char_pos(s, start, n - 1), utf8_len(s[n - 1]))));
            assert forall|k: int| 0 <= k < cur.len() implies {
                let e = #[trigger] cur[k];
                &&& start <= e.0
                &&& 2 <= e.1 <= 4
                &&& e.0 + e.1 <= char_pos(s, start, n)
            } by {
                if k < prev.len() {
                    assert(cur[k] == prev[k]);
                }
            }
            assert forall|i: int, j: int| 0 <= i < j < cur.len() implies cur[i].0 < cur[j].0 by {
                if j < prev.len() {
                    assert(cur[i] == prev[i] && cur[j] == prev[j]);
                } else {
                    assert(cur[i] == prev[i]);
                }
            }
        }
    }
}

/// The non-narrow table among the first `n` characters rises strictly, and
/// each entry is the position of one of those characters.
pub proof fn lemma_non_narrow_upto(s: Seq<char>, start: int, n: int)
    requires
        0 <= n <= s.len(),
    ensures
        positions_increase(non_narrow_upto(s, start, n)),
        non_narrow_upto(s, start, n).len() <= n,
        forall|k: int|
            0 <= k < non_narrow_upto(s, start, n).len() ==> {
                let e = #[trigger] non_narrow_upto(s, start, n)[k];
                &&& start <= e.0 < char_pos(s, start, n)
                &&& 0 <= e.1 <= 4
            },
    decreases n,
{
    lemma_byte_offset_nonneg(s, n);
    if n > 0 {
        lemma_non_narrow_upto(s, start, n - 1);
        lemma_byte_offset_mono(s, 0, n - 1);
        lemma_byte_offset_mono(s, n - 1, n);
        let prev = non_narrow_upto(s, start, n - 1);
        let cur = non_narrow_upto(s, start, n);
        match non_narrow_width_at(s, n - 1) {
            Some(w) => {
                assert(cur == prev.push((char_pos(s, start, n - 1), w)));
                assert forall|k: int| 0 <= k < cur.len() implies {
                    let e = #[trigger] cur[k];
                    &&& start <= e.0 < char_pos(s, start, n)
                    &&& 0 <= e.1 <= 4
                } by {
                    if k < prev.len() {
                        assert(cur[k] == prev[k]);
                    }
                }
                assert forall|i: int, j: int| 0 <= i < j < cur.len() implies cur[i].0
                    < cur[j].0 by {
                    if j < prev.len() {
                        assert(cur[i] == prev[i] && cur[j] == prev[j]);
                    } else {
                        assert(cur[i] == prev[i]);
                    }
                }
            },
            None => {},
        }
    }
}


/// Over an empty range no table entry and no character counts.
pub proof fn lemma_empty_range(s: Seq<char>, start: int, t: Seq<(int, int)>, a: int, n: int)
    ensures
        extra_bytes(t, a, a) == 0,
        extra_columns(t, a, a) == 0,
        count_upto(s, start, a, a, n) == 0,
        columns_upto(s, start, a, a, n) == 0,
    decreases t.len() + if n > 0 {
        n
    } else {
        0
    },
{
    if t.len() > 0 {
        lemma_empty_range(s, start, t.drop_last(), a, 0);
    }
    if n > 0 {
        lemma_empty_range(s, start, seq![], a, n - 1);
    }
}

/// Moving the end of the range among bytes that no entry reaches changes
/// nothing.
pub proof fn lemma_extra_bytes_same_end(t: Seq<(int, int)>, a: int, q: int, p: int)
    requires
        q <= p,
        forall|k: int| 0 <= k < t.len() ==> 1 <= (#[trigger] t[k]).1 && t[k].0 + t[k].1 <= q,
    ensures
        extra_bytes(t, a, p) == extra_bytes(t, a, q),
    decreases t.len(),
{
    if t.len() > 0 {
        let u = t.drop_last();
        assert forall|k: int| 0 <= k < u.len() implies 1 <= (#[trigger] u[k]).1 && u[k].0 + u[k].1
            <= q by {
            assert(u[k] == t[k]);
        }
        lemma_extra_bytes_same_end(u, a, q, p);
        assert(t.last() == t[t.len() - 1]);
    }
}

/// Moving the end of the range past no character changes the count.
pub proof fn lemma_count_same_end(s: Seq<char>, start: int, a: int, q: int, p: int, n: int)
    requires
        0 <= n,
        q <= p,
        n == 0 || char_pos(s, start, n - 1) < q,
    ensures
        count_upto(s, start, a, p, n) == count_upto(s, start, a, q, n),
    decreases n,
{
    if n > 0 {
        if n > 1 {
            lemma_char_pos_order(s, start, n - 2, n - 1);
        }
        lemma_count_same_end(s, start, a, q, p, n - 1);
    }
}

/// Counting the characters that begin in `[a, p)` and the bytes beyond the
/// first of each gives the length of the range, when `a` is a character
/// boundary and `p` lies within the first `n` characters.
pub proof fn lemma_tiling(s: Seq<char>, start: int, j: int, n: int, p: int)
    requires
        0 <= j <= n <= s.len(),
        char_pos(s, start, j) <= p <= char_pos(s, start, n),
    ensures
        extra_bytes(multi_byte_upto(s, start, n), char_pos(s, start, j), p) + count_upto(
            s,
            start,
            char_pos(s, start, j),
            p,
            n,
        ) == p - char_pos(s, start, j),
    decreases n,
{
    let a = char_pos(s, start, j);
    if n == j {
        lemma_empty_range(s, start, multi_byte_upto(s, start, n), a, n);
    } else {
        let q = char_pos(s, start, n - 1);
        let prev = multi_byte_upto(s, start, n - 1);
        let cur = multi_byte_upto(s, start, n);
        lemma_byte_offset_mono(s, j, n - 1);
        lemma_byte_offset_step(s, n - 1);
        lemma_utf8_len_range(s[n - 1]);
        if p <= q {
            lemma_tiling(s, start, j, n - 1, p);
            if utf8_len(s[n - 1]) > 1 {
                assert(cur.drop_last() == prev);
            }
        } else {
            lemma_tiling(s, start, j, n - 1, q);
            lemma_multi_byte_upto(s, start, n - 1);
            lemma_extra_bytes_same_end(prev, a, q, p);
            lemma_count_same_end(s, start, a, q, p, n - 1);
            if utf8_len(s[n - 1]) > 1 {
                assert(cur.drop_last() == prev);
            }
        }
    }
}

/// Counting the characters that begin in `[a, p)` and the columns beyond one
/// of each non-narrow character gives the columns of the range.
pub proof fn lemma_columns(s: Seq<char>, start: int, a: int, p: int, n: int)
    requires
        0 <= n <= s.len(),
    ensures
        count_upto(s, start, a, p, n) + extra_columns(non_narrow_upto(s, start, n), a, p)
            == columns_upto(s, start, a, p, n),
    decreases n,
{
    if n > 0 {
        lemma_columns(s, start, a, p, n - 1);
        let prev = non_narrow_upto(s, start, n - 1);
        let cur = non_narrow_upto(s, start, n);
        match non_narrow_width_at(s, n - 1) {
            Some(w) => {
                assert(cur.drop_last() == prev);
            },
            None => {},
        }
    }
}

/// The sum over a table prefix grows by the term of the next entry.
pub proof fn lemma_extra_take_step(t: Seq<(int, int)>, a: int, p: int, k: int)
    requires
        0 <= k < t.len(),
    ensures
        extra_bytes(t.take(k + 1), a, p) == extra_bytes(t.take(k), a, p) + if a <= t[k].0 < p {
            min_int(t[k].1, p - t[k].0) - 1
        } else {
            0
        },
        extra_columns(t.take(k + 1), a, p) == extra_columns(t.take(k), a, p) + if a <= t[k].0
            < p {
            t[k].1 - 1
        } else {
            0
        },
{
    assert(t.take(k + 1).drop_last() == t.take(k));
}

/// Entries past `k` that lie outside `[a, p)` add nothing to the sums.
pub proof fn lemma_extra_take_rest(t: Seq<(int, int)>, a: int, p: int, k: int)
    requires
        0 <= k <= t.len(),
        forall|i: int| k <= i < t.len() ==> !(a <= (#[trigger] t[i]).0 < p),
    ensures
        extra_bytes(t, a, p) == extra_bytes(t.take(k), a, p),
        extra_columns(t, a, p) == extra_columns(t.take(k), a, p),
    decreases t.len() - k,
{
    if k < t.len() {
        lemma_extra_take_rest(t, a, p, k + 1);
        lemma_extra_take_step(t, a, p, k);
    } else {
        assert(t.take(k) == t);
    }
}

/// Entries before `k` that lie outside `[a, p)` add nothing to the sums.
pub proof fn lemma_extra_take_none(t: Seq<(int, int)>, a: int, p: int, k: int)
    requires
        0 <= k <= t.len(),
        forall|i: int| 0 <= i < k ==> !(a <= (#[trigger] t[i]).0 < p),
    ensures
        extra_bytes(t.take(k), a, p) == 0,
        extra_columns(t.take(k), a, p) == 0,
    decreases k,
{
    if k > 0 {
        lemma_extra_take_none(t, a, p, k - 1);
        lemma_extra_take_step(t, a, p, k - 1);
    }
}

/// No more characters than there are begin in a range, and a wider range
/// holds at least as many.
pub proof fn lemma_count_bounds(s: Seq<char>, start: int, a: int, p: int, p2: int, n: int)
    requires
        0 <= n,
        p <= p2,
    ensures
        0 <= count_upto(s, start, a, p, n) <= n,
        count_upto(s, start, a, p, n) <= count_upto(s, start, a, p2, n),
    decreases n,
{
    if n > 0 {
        lemma_count_bounds(s, start, a, p, p2, n - 1);
    }
}


/// The UTF-8 encoding of a character is `utf8_len` bytes long.
pub proof fn lemma_encode_scalar_len(c: char)
    ensures
        encode_scalar(c as u32).len() == utf8_len(c),
{
    char_is_scalar(c);
}

proof fn lemma_byte_offset_drop_first(s: Seq<char>, i: int)
    requires
        0 <= i < s.len(),
    ensures
        byte_offset(s, i + 1) == utf8_len(s[0]) + byte_offset(s.drop_first(), i),
    decreases i,
{
    if i > 0 {
        lemma_byte_offset_drop_first(s, i - 1);
        assert(s.drop_first()[i - 1] == s[i]);
        assert(byte_offset(s, i + 1) == byte_offset(s, i) + utf8_len(s[i]));
        assert(byte_offset(s.drop_first(), i) == byte_offset(s.drop_first(), i - 1) + utf8_len(
            s.drop_first()[i - 1],
        ));
    } else {
        assert(byte_offset(s, 1) == byte_offset(s, 0) + utf8_len(s[0]));
        assert(byte_offset(s, 0) == 0);
        assert(byte_offset(s.drop_first(), 0) == 0);
    }
}

/// `byte_len` is the length of the UTF-8 encoding.
pub proof fn lemma_byte_len_encoding(s: Seq<char>)
    ensures
        encode_utf8(s).len() == byte_len(s),
    decreases s.len(),
{
    if s.len() > 0 {
        lemma_byte_len_encoding(s.drop_first());
        lemma_encode_scalar_len(s[0]);
        lemma_byte_offset_drop_first(s, s.len() - 1);
    }
}


/// The bytes beyond the first of the characters in a range are never
/// negative.
pub proof fn lemma_extra_bytes_nonneg(t: Seq<(int, int)>, a: int, p: int)
    requires
        forall|k: int| 0 <= k < t.len() ==> 1 <= (#[trigger] t[k]).1,
    ensures
        extra_bytes(t, a, p) >= 0,
    decreases t.len(),
{
    if t.len() > 0 {
        let u = t.drop_last();
        assert forall|k: int| 0 <= k < u.len() implies 1 <= (#[trigger] u[k]).1 by {
            assert(u[k] == t[k]);
        }
        lemma_extra_bytes_nonneg(u, a, p);
        assert(t.last() == t[t.len() - 1]);
    }
}

/// A range takes between none and four columns for each of its characters.
pub proof fn lemma_columns_bounds(s: Seq<char>, start: int, a: int, p: int, n: int)
    requires
        0 <= n,
    ensures
        0 <= columns_upto(s, start, a, p, n) <= 4 * count_upto(s, start, a, p, n),
    decreases n,
{
    if n > 0 {
        lemma_columns_bounds(s, start, a, p, n - 1);
    }
}


/// Characters that begin in `[a, p)` are those in `[a, m)` and those in
/// `[m, p)`.
pub proof fn lemma_count_split(s: Seq<char>, start: int, a: int, m: int, p: int, n: int)
    requires
        a <= m <= p,
        0 <= n,
    ensures
        count_upto(s, start, a, p, n) == count_upto(s, start, a, m, n) + count_upto(
            s,
            start,
            m,
            p,
            n,
        ),
    decreases n,
{
    if n > 0 {
        lemma_count_split(s, start, a, m, p, n - 1);
    }
}

/// Moving the end of a range past character `i` adds that character, one to
/// the count and its width to the columns.
pub proof fn lemma_count_step(s: Seq<char>, start: int, a: int, i: int, n: int)
    requires
        0 <= i < s.len(),
        0 <= n <= s.len(),
        a <= char_pos(s, start, i),
    ensures
        count_upto(s, start, a, char_pos(s, start, i + 1), n) == count_upto(
            s,
            start,
            a,
            char_pos(s, start, i),
            n,
        ) + if i < n {
            1int
        } else {
            0int
        },
        columns_upto(s, start, a, char_pos(s, start, i + 1), n) == columns_upto(
            s,
            start,
            a,
            char_pos(s, start, i),
            n,
        ) + if i < n {
            display_width_at(s, i)
        } else {
            0int
        },
    decreases n,
{
    if n > 0 {
        lemma_count_step(s, start, a, i, n - 1);
        let m = n - 1;
        lemma_char_pos_order(s, start, m, i);
        lemma_char_pos_order(s, start, i, m);
        lemma_char_pos_order(s, start, m, i + 1);
        lemma_char_pos_order(s, start, i + 1, m);
        lemma_char_pos_order(s, start, i, i + 1);
    }
}

/// A sorted table that starts at or before `p` has a line that holds `p`.
pub proof fn lemma_line_index_exists(t: Seq<int>, p: int) -> (k: int)
    requires
        seq_increases(t),
        t.len() >= 1,
        t[0] <= p,
    ensures
        0 <= k < t.len(),
        t[k] <= p,
        k + 1 < t.len() ==> p < t[k + 1],
    decreases t.len(),
{
    if t.last() <= p {
        (t.len() - 1) as int
    } else {
        let u = t.drop_last();
        assert(seq_increases(u));
        let k = lemma_line_index_exists(u, p);
        if k + 1 < u.len() {
            assert(u[k + 1] == t[k + 1]);
        }
        assert(u[k] == t[k]);
        k
    }
}

} // verus!
