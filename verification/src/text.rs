//! The mathematical model of a text buffer: a sequence of characters, its
//! lines, and its length in UTF-16 code units.

use vstd::prelude::*;
use crate::strings::to_chars;

verus! {

/// The text `s` with `t` spliced in before index `at`.
pub open spec fn insert_at(s: Seq<char>, at: int, t: Seq<char>) -> Seq<char> {
    s.subrange(0, at) + t + s.subrange(at, s.len() as int)
}

/// The text `s` without the characters from index `from` up to, not
/// including, index `to`.
pub open spec fn remove_range(s: Seq<char>, from: int, to: int) -> Seq<char> {
    s.subrange(0, from) + s.subrange(to, s.len() as int)
}

/// The characters that end a line: LF, VT, FF, CR, NEL, LS and PS.
pub open spec fn is_line_break(c: char) -> bool {
    c == '\u{000A}' || c == '\u{000B}' || c == '\u{000C}' || c == '\u{000D}' || c == '\u{0085}'
        || c == '\u{2028}' || c == '\u{2029}'
}

/// A line break ends at index `i`: the character before `i` is a line
/// break, and it is not the carriage return of a CR LF pair, which is one
/// break that ends after the line feed.
pub open spec fn break_ends_at(s: Seq<char>, i: int) -> bool {
    &&& 0 < i <= s.len()
    &&& is_line_break(s[i - 1])
    &&& !(s[i - 1] == '\u{000D}' && i < s.len() && s[i] == '\u{000A}')
}

/// The number of line breaks that end at or before index `i`: the
/// zero-based line that the character at `i` stands on.
pub open spec fn line_of(s: Seq<char>, i: int) -> nat
    decreases i,
{
    if i <= 0 {
        0
    } else {
        line_of(s, i - 1) + if break_ends_at(s, i) {
            1nat
        } else {
            0nat
        }
    }
}

/// The number of lines: one more than the number of line breaks.
pub open spec fn line_count(s: Seq<char>) -> nat {
    line_of(s, s.len() as int) + 1
}

/// The first index at or after `i` that stands on line `n` or later, or the
/// length of the text where there is none.
pub open spec fn line_start_from(s: Seq<char>, n: nat, i: int) -> int
    decreases s.len() - i,
{
    if i >= s.len() || line_of(s, i) >= n {
        i
    } else {
        line_start_from(s, n, i + 1)
    }
}

/// The index of the first character of line `n`. Line 0 starts at 0, every
/// other line just after a line break; the line one past the last starts at
/// the end of the text.
pub open spec fn line_start(s: Seq<char>, n: nat) -> int {
    line_start_from(s, n, 0)
}

/// The character offset of `column` on line `row`, where the line exists
/// (the line one past the last counts) and the offset is inside the text or
/// at its end.
pub open spec fn char_offset(s: Seq<char>, row: nat, column: nat) -> Option<nat> {
    if row <= line_count(s) && line_start(s, row) + column <= s.len() {
        Some((line_start(s, row) + column) as nat)
    } else {
        None
    }
}

/// The character offsets of two positions given by line and column, where
/// both are positions of the text and the first does not come after the
/// second.
pub open spec fn char_range(s: Seq<char>, row: nat, col: nat, row1: nat, col1: nat) -> Option<
    (nat, nat),
> {
    match (char_offset(s, row, col), char_offset(s, row1, col1)) {
        (Some(from), Some(to)) => if from <= to {
            Some((from, to))
        } else {
            None
        },
        _ => None,
    }
}

/// The length of the break that ends at index `i`: 2 for CR LF, else 1.
pub open spec fn break_len(s: Seq<char>, i: int) -> int {
    if i >= 2 && s[i - 2] == '\u{000D}' && s[i - 1] == '\u{000A}' {
        2
    } else {
        1
    }
}

/// The number of characters on line `n`, its line break not counted.
pub open spec fn line_length(s: Seq<char>, n: nat) -> int {
    let start = line_start(s, n);
    let end = line_start(s, n + 1);
    if n + 1 < line_count(s) {
        end - start - break_len(s, end)
    } else {
        end - start
    }
}

/// The number of UTF-16 code units that encode `c`: 2 outside the Basic
/// Multilingual Plane, else 1.
pub open spec fn utf16_units(c: char) -> nat {
    if c as u32 >= 0x10000 {
        2
    } else {
        1
    }
}

/// The number of UTF-16 code units that encode `s`.
pub open spec fn utf16_len(s: Seq<char>) -> nat
    decreases s.len(),
{
    if s.len() == 0 {
        0
    } else {
        utf16_len(s.drop_last()) + utf16_units(s.last())
    }
}

/// The least number of characters, counted from `k` on, whose code units
/// reach `units`; the length of the text where they never do.
pub open spec fn utf16_scan_from(s: Seq<char>, units: nat, k: int) -> int
    decreases s.len() - k,
{
    if k >= s.len() || utf16_len(s.subrange(0, k)) >= units {
        k
    } else {
        utf16_scan_from(s, units, k + 1)
    }
}

/// The character offset that a flat UTF-16 offset addresses: the number of
/// characters scanned from the start until their code units reach `units`.
pub open spec fn utf16_to_char(s: Seq<char>, units: nat) -> int {
    utf16_scan_from(s, units, 0)
}

/// Line numbers do not decrease along the text.
pub proof fn lemma_line_of_monotone(s: Seq<char>, i: int, j: int)
    requires
        i <= j,
    ensures
        line_of(s, i) <= line_of(s, j),
    decreases j - i,
{
    if i < j {
        lemma_line_of_monotone(s, i, j - 1);
    }
}

/// What `line_start_from` returns: an index between `i` and the length, at
/// which line `n` has been reached unless the text ended first, and before
/// which, from `i` on, it has not.
pub proof fn lemma_line_start_from(s: Seq<char>, n: nat, i: int)
    requires
        0 <= i <= s.len(),
    ensures
        i <= line_start_from(s, n, i) <= s.len(),
        line_start_from(s, n, i) < s.len() ==> line_of(s, line_start_from(s, n, i)) >= n,
        forall|j: int| i <= j < line_start_from(s, n, i) ==> line_of(s, j) < n,
    decreases s.len() - i,
{
    if i >= s.len() || line_of(s, i) >= n {
    } else {
        lemma_line_start_from(s, n, i + 1);
    }
}

/// A line starts inside the text or at its end.
pub proof fn lemma_line_start_bounds(s: Seq<char>, n: nat)
    ensures
        0 <= line_start(s, n) <= s.len(),
{
    lemma_line_start_from(s, n, 0);
}

/// The line that an index stands on starts at or before that index.
pub proof fn lemma_line_start_le(s: Seq<char>, i: int)
    requires
        0 <= i <= s.len(),
    ensures
        0 <= line_start(s, line_of(s, i)) <= i,
{
    let n = line_of(s, i);
    lemma_line_start_from(s, n, 0);
    if line_start(s, n) > i {
        assert(line_of(s, i) < n);
    }
}

/// An existing line's first character stands on that line.
pub proof fn lemma_line_of_line_start(s: Seq<char>, n: nat)
    requires
        n < line_count(s),
    ensures
        line_of(s, line_start(s, n)) == n,
    decreases n,
{
    let p = line_start(s, n);
    lemma_line_start_from(s, n, 0);
    if p == s.len() {
        // The end of the text stands on the last line, which is at least `n`.
        if p > 0 {
            assert(line_of(s, p - 1) < n);
        }
    } else if p > 0 {
        assert(line_of(s, p - 1) < n);
    }
}

/// The line one past the last starts at the end of the text.
pub proof fn lemma_line_start_past_end(s: Seq<char>)
    ensures
        line_start(s, line_count(s)) == s.len(),
{
    let n = line_count(s);
    lemma_line_start_from(s, n, 0);
    let p = line_start(s, n);
    if p < s.len() {
        lemma_line_of_monotone(s, p, s.len() as int);
    }
}

/// Line starts do not decrease with the line number.
pub proof fn lemma_line_start_monotone(s: Seq<char>, m: nat, n: nat)
    requires
        m <= n,
    ensures
        line_start(s, m) <= line_start(s, n),
{
    lemma_line_start_from(s, m, 0);
    lemma_line_start_from(s, n, 0);
    let p = line_start(s, m);
    let q = line_start(s, n);
    if q < p {
        assert(line_of(s, q) < m);
    }
}

/// The code units of a concatenation are those of its parts.
pub proof fn lemma_utf16_len_concat(a: Seq<char>, b: Seq<char>)
    ensures
        utf16_len(a + b) == utf16_len(a) + utf16_len(b),
    decreases b.len(),
{
    if b.len() == 0 {
        assert(a + b =~= a);
    } else {
        assert((a + b).drop_last() =~= a + b.drop_last());
        assert((a + b).last() == b.last());
        lemma_utf16_len_concat(a, b.drop_last());
    }
}

/// A text has at least one code unit, and at most two, for each character.
pub proof fn lemma_utf16_len_bounds(s: Seq<char>)
    ensures
        s.len() <= utf16_len(s) <= 2 * s.len(),
    decreases s.len(),
{
    if s.len() > 0 {
        lemma_utf16_len_bounds(s.drop_last());
    }
}

/// A prefix extended by one character has that character's code units more.
pub proof fn lemma_utf16_len_step(s: Seq<char>, k: int)
    requires
        0 <= k < s.len(),
    ensures
        utf16_len(s.subrange(0, k + 1)) == utf16_len(s.subrange(0, k)) + utf16_units(s[k]),
{
    assert(s.subrange(0, k + 1).drop_last() =~= s.subrange(0, k));
}

/// What `utf16_scan_from` returns: an index between `k` and the length, at
/// which `units` has been reached unless the text ended first, and before
/// which, from `k` on, it has not.
pub proof fn lemma_utf16_scan_from(s: Seq<char>, units: nat, k: int)
    requires
        0 <= k <= s.len(),
    ensures
        k <= utf16_scan_from(s, units, k) <= s.len(),
        utf16_scan_from(s, units, k) < s.len() ==> utf16_len(
            s.subrange(0, utf16_scan_from(s, units, k)),
        ) >= units,
        forall|j: int|
            k <= j < utf16_scan_from(s, units, k) ==> utf16_len(#[trigger] s.subrange(0, j))
                < units,
    decreases s.len() - k,
{
    if k >= s.len() || utf16_len(s.subrange(0, k)) >= units {
    } else {
        lemma_utf16_scan_from(s, units, k + 1);
    }
}

/// A longer prefix has no fewer code units.
pub proof fn lemma_utf16_prefix_monotone(s: Seq<char>, i: int, j: int)
    requires
        0 <= i <= j <= s.len(),
    ensures
        utf16_len(s.subrange(0, i)) <= utf16_len(s.subrange(0, j)),
{
    assert(s.subrange(0, j) =~= s.subrange(0, i) + s.subrange(i, j));
    lemma_utf16_len_concat(s.subrange(0, i), s.subrange(i, j));
}

/// A UTF-16 offset addresses a character offset inside the text or at its
/// end, and a larger UTF-16 offset addresses no earlier character.
pub proof fn lemma_utf16_to_char_monotone(s: Seq<char>, a: nat, b: nat)
    requires
        a <= b,
    ensures
        0 <= utf16_to_char(s, a) <= utf16_to_char(s, b) <= s.len(),
{
    lemma_utf16_scan_from(s, a, 0);
    lemma_utf16_scan_from(s, b, 0);
    let p = utf16_to_char(s, a);
    let q = utf16_to_char(s, b);
    if q < p {
        assert(utf16_len(s.subrange(0, q)) < a);
    }
}

/// A UTF-16 offset that falls on a character boundary addresses exactly that
/// character: scanning up to the code units of the first `k` characters
/// stops after `k` characters.
pub proof fn lemma_utf16_to_char_of_prefix(s: Seq<char>, k: int)
    requires
        0 <= k <= s.len(),
    ensures
        utf16_to_char(s, utf16_len(s.subrange(0, k))) == k,
{
    let units = utf16_len(s.subrange(0, k));
    lemma_utf16_scan_from(s, units, 0);
    let p = utf16_to_char(s, units);
    if p < k {
        // The scan stopped early, so the prefix of length `p` already has
        // `units` code units; but `k - p` more characters add at least one.
        assert(s.subrange(0, k) =~= s.subrange(0, p) + s.subrange(p, k));
        lemma_utf16_len_concat(s.subrange(0, p), s.subrange(p, k));
        lemma_utf16_len_bounds(s.subrange(p, k));
    } else if p > k {
        assert(utf16_len(s.subrange(0, k)) < units);
    }
}

/// The scan's result is the one index with the scan's two properties: the
/// code units before it do not reach `units`, and those up to it do, unless
/// it is the end of the text.
pub proof fn lemma_utf16_to_char_unique(s: Seq<char>, units: nat, k: int)
    requires
        0 <= k <= s.len(),
        k < s.len() ==> utf16_len(s.subrange(0, k)) >= units,
        forall|j: int| 0 <= j < k ==> utf16_len(#[trigger] s.subrange(0, j)) < units,
    ensures
        utf16_to_char(s, units) == k,
{
    lemma_utf16_scan_from(s, units, 0);
    let p = utf16_to_char(s, units);
    if p < k {
        assert(utf16_len(s.subrange(0, p)) < units);
    } else if k < p {
        assert(utf16_len(s.subrange(0, k)) < units);
    }
}

/// Each line but the last holds its line break whole: the line is at least
/// as long as the break that ends it.
pub proof fn lemma_line_holds_break(s: Seq<char>, n: nat)
    requires
        n + 1 < line_count(s),
    ensures
        line_start(s, n) + break_len(s, line_start(s, n + 1)) <= line_start(s, n + 1),
        break_ends_at(s, line_start(s, n + 1)),
{
    let start = line_start(s, n);
    let end = line_start(s, n + 1);
    lemma_line_of_line_start(s, n);
    lemma_line_of_line_start(s, n + 1);
    lemma_line_start_monotone(s, n, n + 1);
    lemma_line_start_from(s, n, 0);
    lemma_line_start_from(s, n + 1, 0);
    assert(start < end);
    assert(line_of(s, end - 1) < n + 1);
    assert(break_ends_at(s, end));
    if break_len(s, end) == 2 && start == end - 1 {
        // A line would start between the two characters of a CR LF pair.
        assert(start > 0);
        assert(line_of(s, start - 1) < n);
        assert(break_ends_at(s, start));
    }
}

/// The last line starts inside the text or at its end, and ends with it.
pub proof fn lemma_last_line(s: Seq<char>)
    ensures
        0 <= line_start(s, (line_count(s) - 1) as nat) <= s.len(),
        line_length(s, (line_count(s) - 1) as nat) == s.len() - line_start(
            s,
            (line_count(s) - 1) as nat,
        ),
{
    lemma_line_start_bounds(s, (line_count(s) - 1) as nat);
    lemma_line_start_past_end(s);
}

/// A character offset survives the round trip through a line and a column:
/// the offset's column on the offset's line addresses the offset.
pub proof fn position_round_trip(s: Seq<char>, offset: int)
    requires
        0 <= offset <= s.len(),
    ensures
        char_offset(
            s,
            line_of(s, offset),
            (offset - line_start(s, line_of(s, offset))) as nat,
        ) == Some(offset as nat),
{
    lemma_line_of_monotone(s, offset, s.len() as int);
    lemma_line_start_le(s, offset);
}

/// A UTF-16 offset that stands on a character boundary survives the round
/// trip through a character offset: the offset of the first `k` characters
/// addresses character `k`, and the code units before the start of that
/// character's line, plus its column in code units, give the offset back.
/// On the first line the column alone is the offset.
pub proof fn utf16_round_trip(s: Seq<char>, k: int)
    requires
        0 <= k <= s.len(),
    ensures
        ({
            let units = utf16_len(s.subrange(0, k));
            let offset = utf16_to_char(s, units);
            let start = line_start(s, line_of(s, offset));
            &&& offset == k
            &&& 0 <= start <= offset
            &&& utf16_len(s.subrange(0, start)) + utf16_len(s.subrange(start, offset)) == units
            &&& line_of(s, offset) == 0 ==> utf16_len(s.subrange(start, offset)) == units
        }),
{
    lemma_utf16_to_char_of_prefix(s, k);
    lemma_line_start_le(s, k);
    let start = line_start(s, line_of(s, k));
    assert(s.subrange(0, k) =~= s.subrange(0, start) + s.subrange(start, k));
    lemma_utf16_len_concat(s.subrange(0, start), s.subrange(start, k));
    if line_of(s, k) == 0 {
        assert(start == 0);
        assert(s.subrange(0, 0) =~= Seq::<char>::empty());
    }
}

/// The number of UTF-16 code units that encode `c`.
pub fn utf16_units_of(c: char) -> (n: usize)
    ensures
        n == utf16_units(c),
{
    if c as u32 >= 0x10000 {
        2
    } else {
        1
    }
}

/// The number of UTF-16 code units that encode `s`; `None` where the number
/// does not fit a `usize`.
pub fn utf16_length(s: &str) -> (n: Option<usize>)
    ensures
        n matches Some(units) ==> units == utf16_len(s@),
        n is None ==> utf16_len(s@) > usize::MAX,
{
    let chars = to_chars(s);
    let mut units: usize = 0;
    let mut i: usize = 0;
    while i < chars.len()
        invariant
            chars@ == s@,
            0 <= i <= chars@.len(),
            units == utf16_len(s@.subrange(0, i as int)),
        decreases chars@.len() - i,
    {
        proof {
            lemma_utf16_len_step(s@, i as int);
            lemma_utf16_prefix_monotone(s@, i + 1, s@.len() as int);
            assert(s@.subrange(0, s@.len() as int) =~= s@);
        }
        match units.checked_add(utf16_units_of(chars[i])) {
            Some(more) => {
                units = more;
            },
            None => {
                return None;
            },
        }
        i += 1;
    }
    proof {
        assert(s@.subrange(0, s@.len() as int) =~= s@);
    }
    Some(units)
}

} // verus!
