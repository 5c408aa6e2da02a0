//! The rope that holds a document's text, and what is assumed of it.
//!
//! A rope is opaque to the verifier. Its contents have a name, `rope_text`,
//! and each rope operation that the editor uses is reached through one
//! function below, whose contract is taken on trust from the rope library.

use vstd::prelude::*;
use ropey::Rope;
use ropey::RopeSlice;
use crate::text::{insert_at, line_count, line_of, line_start, remove_range, utf16_len};

verus! {

#[verifier::external_type_specification]
#[verifier::external_body]
pub struct ExRope(ropey::Rope);

#[verifier::external_type_specification]
#[verifier::external_body]
pub struct ExRopeSlice<'a>(ropey::RopeSlice<'a>);

/// The characters that a rope holds, in order.
pub uninterp spec fn rope_text(r: Rope) -> Seq<char>;

/// The characters that a slice of a rope shows, in order.
pub uninterp spec fn slice_text(s: RopeSlice<'_>) -> Seq<char>;

/// `Rope::new`: the new rope holds no characters.
#[verifier::external_body]
pub(crate) fn rope_new() -> (r: Rope)
    ensures
        rope_text(r) == Seq::<char>::empty(),
{
    Rope::new()
}

/// `Rope::from_str`: the new rope holds the characters of `text`.
#[verifier::external_body]
pub(crate) fn rope_from_str(text: &str) -> (r: Rope)
    ensures
        rope_text(r) == text@,
{
    Rope::from_str(text)
}

/// `Rope::len_chars`: the number of characters held.
#[verifier::external_body]
pub(crate) fn rope_len_chars(r: &Rope) -> (n: usize)
    ensures
        n == rope_text(*r).len(),
{
    r.len_chars()
}

/// `Rope::len_lines`: the number of lines, one more than the number of line
/// breaks held.
#[verifier::external_body]
pub(crate) fn rope_len_lines(r: &Rope) -> (n: usize)
    ensures
        n == line_count(rope_text(*r)),
{
    r.len_lines()
}

/// `Rope::insert`: `text` goes in before the character at `char_idx`. The
/// call panics where `char_idx` is past the end.
#[verifier::external_body]
pub(crate) fn rope_insert(r: &mut Rope, char_idx: usize, text: &str)
    requires
        char_idx <= rope_text(*old(r)).len(),
    ensures
        rope_text(*final(r)) == insert_at(rope_text(*old(r)), char_idx as int, text@),
{
    r.insert(char_idx, text)
}

/// `Rope::remove`: the characters from `from` up to, not including, `to`
/// leave. The call panics where `from > to` or `to` is past the end.
#[verifier::external_body]
pub(crate) fn rope_remove(r: &mut Rope, from: usize, to: usize)
    requires
        from <= to <= rope_text(*old(r)).len(),
    ensures
        rope_text(*final(r)) == remove_range(rope_text(*old(r)), from as int, to as int),
{
    r.remove(from..to)
}

/// `Rope::char`: the character at `char_idx`. The call panics where
/// `char_idx` is not inside the text.
#[verifier::external_body]
pub(crate) fn rope_char(r: &Rope, char_idx: usize) -> (c: char)
    requires
        char_idx < rope_text(*r).len(),
    ensures
        c == rope_text(*r)[char_idx as int],
{
    r.char(char_idx)
}

/// `Rope::char_to_line`: the line that `char_idx` stands on, which is the
/// number of line breaks that end at or before it. The call panics where
/// `char_idx` is past the end.
#[verifier::external_body]
pub(crate) fn rope_char_to_line(r: &Rope, char_idx: usize) -> (line: usize)
    requires
        char_idx <= rope_text(*r).len(),
    ensures
        line == line_of(rope_text(*r), char_idx as int),
{
    r.char_to_line(char_idx)
}

/// `Rope::char_to_utf16_cu`: the number of UTF-16 code units that encode the
/// characters before `char_idx`. The call panics where `char_idx` is past
/// the end.
#[verifier::external_body]
pub(crate) fn rope_char_to_utf16_cu(r: &Rope, char_idx: usize) -> (units: usize)
    requires
        char_idx <= rope_text(*r).len(),
    ensures
        units == utf16_len(rope_text(*r).subrange(0, char_idx as int)),
{
    r.char_to_utf16_cu(char_idx)
}

/// `Rope::line_to_char`: the index of the first character of the line. The
/// line one past the last starts at the end of the text; the call panics for
/// a line beyond that.
#[verifier::external_body]
pub(crate) fn rope_line_to_char(r: &Rope, line_idx: usize) -> (start: usize)
    requires
        line_idx <= line_count(rope_text(*r)),
    ensures
        start == line_start(rope_text(*r), line_idx as nat),
{
    r.line_to_char(line_idx)
}

/// `Rope::line`: the slice that shows the line, its line break included.
/// The call panics where there is no such line.
#[verifier::external_body]
pub(crate) fn rope_line(r: &Rope, line_idx: usize) -> (line: RopeSlice<'_>)
    requires
        line_idx < line_count(rope_text(*r)),
    ensures
        slice_text(line) == rope_text(*r).subrange(
            line_start(rope_text(*r), line_idx as nat),
            line_start(rope_text(*r), (line_idx + 1) as nat),
        ),
{
    r.line(line_idx)
}

/// `Rope::slice`: the slice that shows the characters from `from` up to, not
/// including, `to`. The call panics where `from > to` or `to` is past the
/// end.
#[verifier::external_body]
pub(crate) fn rope_slice(r: &Rope, from: usize, to: usize) -> (slice: RopeSlice<'_>)
    requires
        from <= to <= rope_text(*r).len(),
    ensures
        slice_text(slice) == rope_text(*r).subrange(from as int, to as int),
{
    r.slice(from..to)
}

/// `RopeSlice::len_chars`: the number of characters that the slice shows.
#[verifier::external_body]
pub(crate) fn slice_len_chars(s: &RopeSlice<'_>) -> (n: usize)
    ensures
        n == slice_text(*s).len(),
{
    s.len_chars()
}

/// `String::from` of a `RopeSlice`: a string of the characters that the
/// slice shows.
#[verifier::external_body]
pub(crate) fn slice_to_string(s: RopeSlice<'_>) -> (text: String)
    ensures
        text@ == slice_text(s),
{
    String::from(s)
}

/// `String::from` of a `&Rope`: a string of the characters that the rope
/// holds.
#[verifier::external_body]
pub(crate) fn rope_to_string(r: &Rope) -> (text: String)
    ensures
        text@ == rope_text(*r),
{
    String::from(r)
}

} // verus!
