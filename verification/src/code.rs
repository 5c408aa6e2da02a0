//! A document: its text in a rope, its undo and redo stacks, and the edits
//! that keep the three in step.

use vstd::prelude::*;
use vstd::string::StrSliceExecFns;
use ropey::Rope;
use crate::config::Config;
use crate::error::DocError;
use crate::history::{
    lemma_insert_consistent, lemma_mark_consistent, lemma_remove_consistent,
    lemma_replay_consistent, lemma_replay_fits_by_length, stack_fits, ChangeView, CodeView,
};
use crate::language::{language_for, language_of};
use crate::rope::{
    rope_char, rope_char_to_line, rope_char_to_utf16_cu, rope_from_str, rope_insert,
    rope_len_chars, rope_len_lines, rope_line, rope_line_to_char, rope_new, rope_remove,
    rope_slice, rope_text, rope_to_string, slice_len_chars, slice_to_string,
};
use crate::text::{
    char_offset, char_range, insert_at, lemma_last_line, lemma_line_holds_break,
    lemma_line_of_monotone, lemma_line_start_bounds, lemma_line_start_le,
    lemma_line_start_monotone, lemma_utf16_len_concat, lemma_utf16_prefix_monotone,
    lemma_utf16_to_char_unique, line_count, line_length, line_of, line_start, remove_range,
    utf16_len, utf16_to_char,
};
use crate::utils::{checked_file_name, path_file_name};

verus! {

/// What an entry of a history stands for.
#[derive(Debug, Clone, Copy, PartialEq, Eq, Structural)]
pub enum Operation {
    /// Text was inserted; the entry holds it.
    Insert,
    /// Text was removed; the entry holds it.
    Remove,
    /// A group of edits opens here.
    Start,
    /// A group of edits closes here.
    End,
}

/// One entry of a history.
#[derive(Debug, Clone)]
pub struct Change {
    pub start: usize,
    pub operation: Operation,
    pub text: String,
    pub row: usize,
    pub column: usize,
}

/// The edits that one undo or redo replayed, in the order of their replay.
#[derive(Debug, Clone)]
pub struct MultipleChange {
    pub changes: Vec<Change>,
}

/// A line and a column on it.
#[derive(Debug, Clone, Copy, PartialEq, Eq, Structural)]
pub struct Position {
    pub line: usize,
    pub character: usize,
}

/// A write that a save asks for: the text to write and the path to write it
/// to.
#[derive(Debug, Clone, PartialEq, Eq)]
pub struct PendingWrite {
    pub path: String,
    pub text: String,
}

/// A document.
pub struct Code {
    pub file_name: String,
    pub abs_path: String,
    pub lang: String,
    pub text: Rope,
    pub changed: bool,
    pub undo_history: Vec<Change>,
    pub redo_history: Vec<Change>,
}

impl View for Change {
    type V = ChangeView;

    open spec fn view(&self) -> ChangeView {
        ChangeView {
            start: self.start as nat,
            operation: self.operation,
            text: self.text@,
            row: self.row as nat,
            column: self.column as nat,
        }
    }
}

/// The entries of a stack as the contracts see them.
pub open spec fn change_views(stack: Seq<Change>) -> Seq<ChangeView> {
    stack.map_values(|c: Change| c@)
}

impl View for MultipleChange {
    type V = Seq<ChangeView>;

    open spec fn view(&self) -> Seq<ChangeView> {
        change_views(self.changes@)
    }
}

impl View for Code {
    type V = CodeView;

    open spec fn view(&self) -> CodeView {
        CodeView {
            file_name: self.file_name@,
            abs_path: self.abs_path@,
            lang: self.lang@,
            text: rope_text(self.text),
            changed: self.changed,
            undo_history: change_views(self.undo_history@),
            redo_history: change_views(self.redo_history@),
        }
    }
}

impl Default for MultipleChange {
    fn default() -> (r: MultipleChange)
        ensures
            r@ == Seq::<ChangeView>::empty(),
    {
        let r = MultipleChange { changes: Vec::new() };
        assert(r@ =~= Seq::<ChangeView>::empty());
        r
    }
}

impl Change {
    /// A copy of the entry.
    pub fn duplicate(&self) -> (r: Change)
        ensures
            r@ == self@,
    {
        Change {
            start: self.start,
            operation: self.operation,
            text: self.text.clone(),
            row: self.row,
            column: self.column,
        }
    }
}

impl Code {
    /// An empty, clean document without a name.
    pub fn new() -> (r: Code)
        ensures
            r@ == CodeView::empty(),
            r@.consistent(),
    {
        let r = Code {
            text: rope_new(),
            file_name: String::new(),
            abs_path: String::new(),
            changed: false,
            lang: String::new(),
            undo_history: Vec::new(),
            redo_history: Vec::new(),
        };
        assert(r@.undo_history =~= Seq::empty());
        assert(r@.redo_history =~= Seq::empty());
        r
    }

    fn insert(&mut self, text: &str, from: usize)
        requires
            from <= old(self)@.text.len(),
        ensures
            final(self)@ == old(self)@.with_text(
                insert_at(old(self)@.text, from as int, text@),
            ),
    {
        rope_insert(&mut self.text, from, text);
        self.changed = true;
    }

    fn remove(&mut self, from: usize, to: usize)
        requires
            from <= to <= old(self)@.text.len(),
        ensures
            final(self)@ == old(self)@.with_text(
                remove_range(old(self)@.text, from as int, to as int),
            ),
    {
        rope_remove(&mut self.text, from, to);
        self.changed = true;
    }

    /// Removes `count` characters from offset `from` on.
    fn remove_count(&mut self, from: usize, count: usize)
        requires
            from + count <= old(self)@.text.len(),
        ensures
            final(self)@ == old(self)@.with_text(
                remove_range(old(self)@.text, from as int, from + count),
            ),
    {
        // The sum is at most the length of the text, which is a `usize`.
        let len = rope_len_chars(&self.text);
        if from <= len {
            self.remove(from, from + count);
        }
    }

    /// Inserts `text` at the character offset `offset`, records the edit
    /// and forgets what could be redone. An offset past the end of the text
    /// is refused, and the document stays as it is.
    pub fn insert_text2(&mut self, text: &str, offset: usize) -> (r: Result<(), DocError>)
        ensures
            r is Ok <==> offset <= old(self)@.text.len(),
            r is Ok ==> final(self)@ == old(self)@.insert(offset as nat, text@, 0, 0),
            r is Err ==> r == Err::<(), DocError>(DocError::OffsetOutOfRange) && final(self)@
                == old(self)@,
            old(self)@.consistent() && r is Ok ==> final(self)@.consistent(),
    {
        self.insert_recorded(text, offset, 0, 0)
    }

    /// Removes the characters from offset `from` up to, not including,
    /// offset `to`, records the edit with the removed text and forgets what
    /// could be redone. A range that is reversed or ends past the end of
    /// the text is refused, and the document stays as it is.
    pub fn remove_text2(&mut self, from: usize, to: usize) -> (r: Result<(), DocError>)
        ensures
            r is Ok <==> from <= to <= old(self)@.text.len(),
            r is Ok ==> final(self)@ == old(self)@.remove(from as nat, to as nat, 0, 0),
            r is Err ==> r == Err::<(), DocError>(DocError::OffsetOutOfRange) && final(self)@
                == old(self)@,
            old(self)@.consistent() && r is Ok ==> final(self)@.consistent(),
    {
        self.remove_recorded(from, to, 0, 0)
    }

    /// The removal that `remove_text` and `remove_text2` share: the entry
    /// records `row` and `column` beside the removed text.
    fn remove_recorded(&mut self, from: usize, to: usize, row: usize, column: usize) -> (r: Result<
        (),
        DocError,
    >)
        ensures
            r is Ok <==> from <= to <= old(self)@.text.len(),
            r is Ok ==> final(self)@ == old(self)@.remove(
                from as nat,
                to as nat,
                row as nat,
                column as nat,
            ),
            r is Err ==> r == Err::<(), DocError>(DocError::OffsetOutOfRange) && final(self)@
                == old(self)@,
            old(self)@.consistent() && r is Ok ==> final(self)@.consistent(),
    {
        proof {
            if self@.consistent() && from <= to <= self@.text.len() {
                lemma_remove_consistent(self@, from as nat, to as nat, row as nat, column as nat);
            }
        }
        if from > to || to > rope_len_chars(&self.text) {
            return Err(DocError::OffsetOutOfRange);
        }
        let text = slice_to_string(rope_slice(&self.text, from, to));
        self.remove(from, to);
        self.undo_history.push(
            Change { start: from, operation: Operation::Remove, text, row, column },
        );
        self.redo_history.clear();
        proof {
            assert(final(self)@.undo_history =~= old(self)@.remove(
                from as nat,
                to as nat,
                row as nat,
                column as nat,
            ).undo_history);
            assert(final(self)@.redo_history =~= Seq::empty());
        }
        Ok(())
    }

    /// The insertion that `insert_text` and `insert_text2` share: the entry
    /// records `row` and `column` beside the inserted text.
    fn insert_recorded(&mut self, text: &str, offset: usize, row: usize, column: usize) -> (r:
        Result<(), DocError>)
        ensures
            r is Ok <==> offset <= old(self)@.text.len(),
            r is Ok ==> final(self)@ == old(self)@.insert(
                offset as nat,
                text@,
                row as nat,
                column as nat,
            ),
            r is Err ==> r == Err::<(), DocError>(DocError::OffsetOutOfRange) && final(self)@
                == old(self)@,
            old(self)@.consistent() && r is Ok ==> final(self)@.consistent(),
    {
        proof {
            if self@.consistent() && offset <= self@.text.len() {
                lemma_insert_consistent(self@, offset as nat, text@, row as nat, column as nat);
            }
        }
        if offset > rope_len_chars(&self.text) {
            return Err(DocError::OffsetOutOfRange);
        }
        self.insert(text, offset);
        self.undo_history.push(
            Change {
                start: offset,
                operation: Operation::Insert,
                text: text.to_string(),
                row,
                column,
            },
        );
        self.redo_history.clear();
        proof {
            assert(final(self)@.undo_history =~= old(self)@.insert(
                offset as nat,
                text@,
                row as nat,
                column as nat,
            ).undo_history);
            assert(final(self)@.redo_history =~= Seq::empty());
        }
        Ok(())
    }

    /// Puts a group marker on top of the undo stack.
    fn push_marker(&mut self, operation: Operation, start: usize, row: usize, column: usize)
        ensures
            final(self)@ == old(self)@.mark(operation, start as nat, row as nat, column as nat),
            (operation == Operation::Start || operation == Operation::End)
                && old(self)@.consistent() ==> final(self)@.consistent(),
    {
        proof {
            if (operation == Operation::Start || operation == Operation::End)
                && self@.consistent() {
                lemma_mark_consistent(self@, operation, start as nat, row as nat, column as nat);
            }
        }
        self.undo_history.push(Change { start, operation, text: String::new(), row, column });
        proof {
            assert(final(self)@.undo_history =~= old(self)@.mark(
                operation,
                start as nat,
                row as nat,
                column as nat,
            ).undo_history);
        }
    }

    /// The character offset of `column` on line `row`, where that is a
    /// position of the text.
    pub fn offset_at(&self, row: usize, column: usize) -> (r: Option<usize>)
        ensures
            r matches Some(at) ==> char_offset(self@.text, row as nat, column as nat) == Some(
                at as nat,
            ) && at == line_start(self@.text, row as nat) + column && at <= self@.text.len(),
            r is None ==> char_offset(self@.text, row as nat, column as nat) is None,
    {
        if row > rope_len_lines(&self.text) {
            return None;
        }
        let start = rope_line_to_char(&self.text, row);
        let len = rope_len_chars(&self.text);
        proof {
            lemma_line_start_bounds(self@.text, row as nat);
        }
        if column > len - start {
            None
        } else {
            Some(start + column)
        }
    }

    /// Inserts `text` at `column` on line `row`, records the edit and
    /// forgets what could be redone. A position outside the text is
    /// refused, and the document stays as it is.
    pub fn insert_text(&mut self, text: &str, row: usize, column: usize) -> (r: Result<
        (),
        DocError,
    >)
        ensures
            r is Ok <==> char_offset(old(self)@.text, row as nat, column as nat) is Some,
            r is Ok ==> final(self)@ == old(self)@.insert(
                char_offset(old(self)@.text, row as nat, column as nat).unwrap(),
                text@,
                row as nat,
                column as nat,
            ),
            r is Err ==> r == Err::<(), DocError>(DocError::OffsetOutOfRange) && final(self)@
                == old(self)@,
            old(self)@.consistent() && r is Ok ==> final(self)@.consistent(),
    {
        match self.offset_at(row, column) {
            None => Err(DocError::OffsetOutOfRange),
            Some(from) => self.insert_recorded(text, from, row, column),
        }
    }

    /// Removes the characters from `col` on line `row` up to, not including,
    /// `col1` on line `row1`, records the edit with the removed text and
    /// forgets what could be redone. A range with an end outside the text,
    /// or reversed, is refused, and the document stays as it is.
    pub fn remove_text(&mut self, row: usize, col: usize, row1: usize, col1: usize) -> (r: Result<
        (),
        DocError,
    >)
        ensures
            r is Ok <==> char_range(
                old(self)@.text,
                row as nat,
                col as nat,
                row1 as nat,
                col1 as nat,
            ) is Some,
            r is Ok ==> ({
                let (from, to) = char_range(
                    old(self)@.text,
                    row as nat,
                    col as nat,
                    row1 as nat,
                    col1 as nat,
                ).unwrap();
                final(self)@ == old(self)@.remove(from, to, row1 as nat, col1 as nat)
            }),
            r is Err ==> r == Err::<(), DocError>(DocError::OffsetOutOfRange) && final(self)@
                == old(self)@,
            old(self)@.consistent() && r is Ok ==> final(self)@.consistent(),
    {
        let from = match self.offset_at(row, col) {
            None => { return Err(DocError::OffsetOutOfRange); },
            Some(from) => from,
        };
        let to = match self.offset_at(row1, col1) {
            None => { return Err(DocError::OffsetOutOfRange); },
            Some(to) => to,
        };
        self.remove_recorded(from, to, row1, col1)
    }

    /// Replaces the characters from `col` on line `row` up to, not
    /// including, `col1` on line `row1` by `text`, as one group that a
    /// single undo takes back: an opening marker, the removal, the
    /// insertion at the start of the range, and a closing marker. A range
    /// with an end outside the text, or reversed, is refused, and the
    /// document stays as it is.
    pub fn replace_text(
        &mut self,
        row: usize,
        col: usize,
        row1: usize,
        col1: usize,
        text: &str,
    ) -> (r: Result<(), DocError>)
        ensures
            r is Ok <==> char_range(
                old(self)@.text,
                row as nat,
                col as nat,
                row1 as nat,
                col1 as nat,
            ) is Some,
            r is Ok ==> ({
                let (from, to) = char_range(
                    old(self)@.text,
                    row as nat,
                    col as nat,
                    row1 as nat,
                    col1 as nat,
                ).unwrap();
                final(self)@ == old(self)@.replace(
                    from,
                    to,
                    text@,
                    row as nat,
                    col as nat,
                    row1 as nat,
                    col1 as nat,
                )
            }),
            r is Err ==> r == Err::<(), DocError>(DocError::OffsetOutOfRange) && final(self)@
                == old(self)@,
            old(self)@.consistent() && r is Ok ==> final(self)@.consistent(),
    {
        let from = match self.offset_at(row, col) {
            None => { return Err(DocError::OffsetOutOfRange); },
            Some(from) => from,
        };
        let to = match self.offset_at(row1, col1) {
            None => { return Err(DocError::OffsetOutOfRange); },
            Some(to) => to,
        };
        if from > to {
            return Err(DocError::OffsetOutOfRange);
        }
        self.push_marker(Operation::Start, from, row1, col1);
        let removed = self.remove_recorded(from, to, row1, col1);
        assert(removed is Ok);
        let inserted = self.insert_recorded(text, from, row, col);
        assert(inserted is Ok);
        self.push_marker(Operation::End, from, row1, col1);
        Ok(())
    }

    /// Whether every edit that one replay takes from `stack` stays inside a
    /// text of `len` characters.
    fn fits_replay(stack: &Vec<Change>, len: usize, forward: bool) -> (r: bool)
        ensures
            r == stack_fits(len as int, change_views(stack@), forward, false),
    {
        let ghost entries = change_views(stack@);
        // The length of the text as the replay goes: each entry changes it
        // by less than 2^64, so that it stays far below 2^128.
        let mut left: u128 = len as u128;
        let mut grouped = false;
        let mut i: usize = stack.len();
        proof {
            assert(entries.subrange(0, i as int) =~= entries);
        }
        while i > 0
            invariant
                entries == change_views(stack@),
                0 <= i <= stack@.len() <= usize::MAX,
                left <= (stack@.len() - i + 1) * 0xFFFF_FFFF_FFFF_FFFF,
                stack_fits(len as int, entries, forward, false) == stack_fits(
                    left as int,
                    entries.subrange(0, i as int),
                    forward,
                    grouped,
                ),
            decreases i,
        {
            let ghost top = entries.subrange(0, i as int);
            i -= 1;
            let change = &stack[i];
            proof {
                assert(top.last() == change@);
                assert(top.drop_last() =~= entries.subrange(0, i as int));
            }
            match change.operation {
                Operation::Start => {
                    return true;
                },
                Operation::End => {
                    grouped = true;
                },
                Operation::Insert | Operation::Remove => {
                    let count = change.text.as_str().unicode_len() as u128;
                    let puts_in = match change.operation {
                        Operation::Insert => forward,
                        _ => !forward,
                    };
                    if puts_in {
                        if change.start as u128 > left {
                            return false;
                        }
                        left = left + count;
                    } else {
                        if change.start as u128 + count > left {
                            return false;
                        }
                        left = left - count;
                    }
                    if !grouped {
                        return true;
                    }
                },
            }
        }
        true
    }

    /// Whether an undo can be made: every edit that it would take back lies
    /// inside the text.
    pub fn can_undo(&self) -> (r: bool)
        ensures
            r == self@.undo_fits(),
    {
        proof {
            lemma_replay_fits_by_length(self@, false, false);
        }
        Code::fits_replay(&self.undo_history, rope_len_chars(&self.text), false)
    }

    /// Whether a redo can be made: every edit that it would make again lies
    /// inside the text.
    pub fn can_redo(&self) -> (r: bool)
        ensures
            r == self@.redo_fits(),
    {
        proof {
            lemma_replay_fits_by_length(self@, true, false);
        }
        Code::fits_replay(&self.redo_history, rope_len_chars(&self.text), true)
    }

    /// An undo, where one can be made: else the undo is refused, and the
    /// document stays as it is.
    pub fn checked_undo(&mut self) -> (r: Result<Option<MultipleChange>, DocError>)
        ensures
            r is Ok <==> old(self)@.undo_fits(),
            r matches Ok(undone) ==> {
                &&& final(self)@ == old(self)@.undo().0
                &&& undone is Some <==> old(self)@.undo().1 is Some
                &&& undone matches Some(m) ==> old(self)@.undo().1 == Some(m@)
            },
            r matches Err(e) ==> e == DocError::OffsetOutOfRange && final(self)@ == old(self)@,
    {
        if self.can_undo() {
            Ok(self.undo())
        } else {
            Err(DocError::OffsetOutOfRange)
        }
    }

    /// A redo, where one can be made: else the redo is refused, and the
    /// document stays as it is.
    pub fn checked_redo(&mut self) -> (r: Result<Option<MultipleChange>, DocError>)
        ensures
            r is Ok <==> old(self)@.redo_fits(),
            r matches Ok(redone) ==> {
                &&& final(self)@ == old(self)@.redo().0
                &&& redone is Some <==> old(self)@.redo().1 is Some
                &&& redone matches Some(m) ==> old(self)@.redo().1 == Some(m@)
            },
            r matches Err(e) ==> e == DocError::OffsetOutOfRange && final(self)@ == old(self)@,
    {
        if self.can_redo() {
            Ok(self.redo())
        } else {
            Err(DocError::OffsetOutOfRange)
        }
    }

    /// Takes back the last edit, or the last group of edits, and returns
    /// the edits taken back; `None` where the undo stack runs out before
    /// the replay ends.
    pub fn undo(&mut self) -> (r: Option<MultipleChange>)
        requires
            old(self)@.undo_fits(),
        ensures
            final(self)@ == old(self)@.undo().0,
            r is Some <==> old(self)@.undo().1 is Some,
            r matches Some(m) ==> old(self)@.undo().1 == Some(m@),
            old(self)@.consistent() ==> final(self)@.consistent(),
    {
        let ghost before = self@;
        proof {
            if before.consistent() {
                lemma_replay_consistent(before, false, false, Seq::empty());
            }
        }
        let mut multiple_change = MultipleChange::default();
        let mut multiple = false;
        loop
            invariant
                before == old(self)@,
                before.consistent() ==> before.undo().0.consistent(),
                self@.replay_fits(false, multiple),
                before.undo() == self@.replay(false, multiple, multiple_change@),
            decreases self.undo_history.len(),
        {
            let ghost at_top = self@;
            let ghost done = multiple_change@;
            match self.undo_history.pop() {
                None => {
                    return None;
                },
                Some(change) => {
                    proof {
                        assert(at_top.undo_history.last() == change@);
                        assert(self@.undo_history =~= at_top.undo_history.drop_last());
                        assert(self@ == at_top.popped(false));
                    }
                    match change.operation {
                        Operation::Insert => {
                            self.remove_count(change.start, change.text.as_str().unicode_len());
                            multiple_change.changes.push(change.duplicate());
                            self.redo_history.push(change);
                            proof {
                                assert(self@.redo_history =~= at_top.redo_history.push(change@));
                                assert(self@ == at_top.popped(false).replayed(change@, false));
                                assert(multiple_change@ =~= done.push(change@));
                            }
                            if !multiple {
                                return Some(multiple_change);
                            }
                        },
                        Operation::Remove => {
                            self.insert(change.text.as_str(), change.start);
                            multiple_change.changes.push(change.duplicate());
                            self.redo_history.push(change);
                            proof {
                                assert(self@.redo_history =~= at_top.redo_history.push(change@));
                                assert(self@ == at_top.popped(false).replayed(change@, false));
                                assert(multiple_change@ =~= done.push(change@));
                            }
                            if !multiple {
                                return Some(multiple_change);
                            }
                        },
                        Operation::End => {
                            multiple = true;
                        },
                        Operation::Start => {
                            return Some(multiple_change);
                        },
                    }
                },
            }
        }
    }

    /// Makes the last undone edit, or group of edits, again, and returns
    /// the edits made again; `None` where the redo stack runs out before
    /// the replay ends.
    pub fn redo(&mut self) -> (r: Option<MultipleChange>)
        requires
            old(self)@.redo_fits(),
        ensures
            final(self)@ == old(self)@.redo().0,
            r is Some <==> old(self)@.redo().1 is Some,
            r matches Some(m) ==> old(self)@.redo().1 == Some(m@),
            old(self)@.consistent() ==> final(self)@.consistent(),
    {
        let ghost before = self@;
        proof {
            if before.consistent() {
                lemma_replay_consistent(before, true, false, Seq::empty());
            }
        }
        let mut multiple_change = MultipleChange::default();
        let mut multiple = false;
        loop
            invariant
                before == old(self)@,
                before.consistent() ==> before.redo().0.consistent(),
                self@.replay_fits(true, multiple),
                before.redo() == self@.replay(true, multiple, multiple_change@),
            decreases self.redo_history.len(),
        {
            let ghost at_top = self@;
            let ghost done = multiple_change@;
            match self.redo_history.pop() {
                None => {
                    return None;
                },
                Some(change) => {
                    proof {
                        assert(at_top.redo_history.last() == change@);
                        assert(self@.redo_history =~= at_top.redo_history.drop_last());
                        assert(self@ == at_top.popped(true));
                    }
                    match change.operation {
                        Operation::Insert => {
                            self.insert(change.text.as_str(), change.start);
                            multiple_change.changes.push(change.duplicate());
                            self.undo_history.push(change);
                            proof {
                                assert(self@.undo_history =~= at_top.undo_history.push(change@));
                                assert(self@ == at_top.popped(true).replayed(change@, true));
                                assert(multiple_change@ =~= done.push(change@));
                            }
                            if !multiple {
                                return Some(multiple_change);
                            }
                        },
                        Operation::Remove => {
                            self.remove_count(change.start, change.text.as_str().unicode_len());
                            multiple_change.changes.push(change.duplicate());
                            self.undo_history.push(change);
                            proof {
                                assert(self@.undo_history =~= at_top.undo_history.push(change@));
                                assert(self@ == at_top.popped(true).replayed(change@, true));
                                assert(multiple_change@ =~= done.push(change@));
                            }
                            if !multiple {
                                return Some(multiple_change);
                            }
                        },
                        Operation::End => {
                            multiple = true;
                        },
                        Operation::Start => {
                            return Some(multiple_change);
                        },
                    }
                },
            }
        }
    }

    /// The document of a file that was read: `path` as it was asked for,
    /// `abs_path` its canonical form and `content` what the file holds. The
    /// document is clean, its histories are empty, its name is the final
    /// component of `path` and its language the one found for `path`. A
    /// path without a final component is refused.
    pub fn from_file(path: &str, abs_path: String, content: &str, conf: &Config) -> (r: Result<
        Code,
        DocError,
    >)
        ensures
            r is Ok <==> path_file_name(path@) is Some,
            r matches Ok(code) ==> code@ == (CodeView {
                file_name: path_file_name(path@).unwrap(),
                abs_path: abs_path@,
                lang: language_of(path@, conf.language@),
                text: content@,
                ..CodeView::empty()
            }),
            r matches Err(e) ==> e == DocError::PathResolution,
            r matches Ok(code) ==> code@.consistent(),
    {
        let file_name = match checked_file_name(path) {
            Some(name) => name,
            None => { return Err(DocError::PathResolution); },
        };
        let code = Code {
            text: rope_from_str(content),
            file_name,
            abs_path,
            changed: false,
            lang: language_for(path, conf),
            undo_history: Vec::new(),
            redo_history: Vec::new(),
        };
        proof {
            assert(code@.undo_history =~= Seq::empty());
            assert(code@.redo_history =~= Seq::empty());
        }
        Ok(code)
    }

    /// A document whose text is `text`, as if typed into an empty one: the
    /// insertion is on the undo stack and the document is dirty.
    pub fn from_str(text: &str) -> (r: Code)
        ensures
            r@ == CodeView::empty().insert(0, text@, 0, 0),
            r@.consistent(),
    {
        let mut code = Code::new();
        proof {
            assert(line_start(code@.text, 0) == 0);
        }
        let inserted = code.insert_text(text, 0, 0);
        assert(inserted is Ok);
        code
    }

    /// Replaces the whole text and marks the document dirty. The histories
    /// stay as they are.
    pub fn set_text(&mut self, text: &str)
        ensures
            final(self)@ == old(self)@.with_text(text@),
    {
        self.text = rope_new();
        rope_insert(&mut self.text, 0, text);
        self.changed = true;
        proof {
            assert(final(self)@.text =~= text@);
        }
    }

    /// Names the file that the document stands for.
    pub fn set_file_name(&mut self, file_name: String)
        ensures
            final(self)@ == (CodeView { file_name: file_name@, ..old(self)@ }),
    {
        self.file_name = file_name;
    }

    /// The whole text as a string.
    pub fn content(&self) -> (text: String)
        ensures
            text@ == self@.text,
    {
        rope_to_string(&self.text)
    }

    /// The characters from offset `from` up to, not including, offset `to`.
    /// A range that is reversed or ends past the end of the text is refused.
    pub fn slice(&self, from: usize, to: usize) -> (r: Result<String, DocError>)
        ensures
            r is Ok <==> from <= to <= self@.text.len(),
            r matches Ok(text) ==> text@ == self@.text.subrange(from as int, to as int),
            r matches Err(e) ==> e == DocError::OffsetOutOfRange,
    {
        if from > to || to > rope_len_chars(&self.text) {
            return Err(DocError::OffsetOutOfRange);
        }
        Ok(slice_to_string(rope_slice(&self.text, from, to)))
    }

    /// The number of characters of the text.
    pub fn len_chars(&self) -> (n: usize)
        ensures
            n == self@.text.len(),
    {
        rope_len_chars(&self.text)
    }

    /// The number of UTF-16 code units that encode the text.
    pub fn len_utf16(&self) -> (n: usize)
        ensures
            n == utf16_len(self@.text),
    {
        let len = rope_len_chars(&self.text);
        proof {
            assert(self@.text.subrange(0, len as int) =~= self@.text);
        }
        rope_char_to_utf16_cu(&self.text, len)
    }

    /// The number of lines of the text.
    pub fn len_lines(&self) -> (n: usize)
        ensures
            n == line_count(self@.text),
    {
        rope_len_lines(&self.text)
    }

    /// The line that the character offset `offset` stands on, and the
    /// offset's column on that line, counted in characters.
    pub fn position(&self, offset: usize) -> (r: (usize, usize))
        requires
            offset <= self@.text.len(),
        ensures
            r.0 == line_of(self@.text, offset as int),
            r.1 == offset - line_start(self@.text, r.0 as nat),
    {
        let line_idx = rope_char_to_line(&self.text, offset);
        proof {
            lemma_line_of_monotone(self@.text, offset as int, self@.text.len() as int);
            lemma_line_start_le(self@.text, offset as int);
        }
        let line_char_index = rope_line_to_char(&self.text, line_idx);
        (line_idx, offset - line_char_index)
    }

    /// The line that the character offset `offset` stands on, and the
    /// offset's column on that line, counted in UTF-16 code units.
    pub fn char_to_position(&self, offset: usize) -> (r: (usize, usize))
        requires
            offset <= self@.text.len(),
        ensures
            r.0 == line_of(self@.text, offset as int),
            r.1 == utf16_len(
                self@.text.subrange(line_start(self@.text, r.0 as nat), offset as int),
            ),
    {
        let line_idx = rope_char_to_line(&self.text, offset);
        proof {
            lemma_line_of_monotone(self@.text, offset as int, self@.text.len() as int);
            lemma_line_start_le(self@.text, offset as int);
        }
        let start = rope_line_to_char(&self.text, line_idx);
        let before_offset = rope_char_to_utf16_cu(&self.text, offset);
        let before_line = rope_char_to_utf16_cu(&self.text, start);
        proof {
            let s = self@.text;
            assert(s.subrange(0, offset as int) =~= s.subrange(0, start as int) + s.subrange(
                start as int,
                offset as int,
            ));
            lemma_utf16_len_concat(
                s.subrange(0, start as int),
                s.subrange(start as int, offset as int),
            );
        }
        (line_idx, before_offset - before_line)
    }

    /// The character offset that the flat UTF-16 offset `utf16_offset`
    /// addresses: the least number of leading characters whose code units
    /// reach it, or the length of the text where it lies past the end.
    pub fn utf16_to_char_offset(&self, utf16_offset: usize) -> (r: usize)
        ensures
            r == utf16_to_char(self@.text, utf16_offset as nat),
            r <= self@.text.len(),
    {
        let ghost s = self@.text;
        let len = rope_len_chars(&self.text);
        let mut lo: usize = 0;
        let mut hi: usize = len;
        while lo < hi
            invariant
                s == self@.text,
                len == s.len(),
                0 <= lo <= hi <= len,
                hi < len ==> utf16_len(s.subrange(0, hi as int)) >= utf16_offset,
                forall|j: int|
                    0 <= j < lo ==> utf16_len(#[trigger] s.subrange(0, j)) < utf16_offset,
            decreases hi - lo,
        {
            let mid = lo + (hi - lo) / 2;
            if rope_char_to_utf16_cu(&self.text, mid) >= utf16_offset {
                hi = mid;
            } else {
                proof {
                    assert forall|j: int| 0 <= j < mid + 1 implies utf16_len(
                        #[trigger] s.subrange(0, j),
                    ) < utf16_offset by {
                        lemma_utf16_prefix_monotone(s, j, mid as int);
                    }
                }
                lo = mid + 1;
            }
        }
        proof {
            lemma_utf16_to_char_unique(s, utf16_offset as nat, lo as int);
        }
        lo
    }

    /// The number of characters on line `idx`, its line break not counted.
    pub fn line_len(&self, idx: usize) -> (len: usize)
        requires
            idx < line_count(self@.text),
        ensures
            len == line_length(self@.text, idx as nat),
    {
        let ghost s = self@.text;
        let line = rope_line(&self.text, idx);
        let len = slice_len_chars(&line);
        proof {
            lemma_line_start_bounds(s, idx as nat);
            lemma_line_start_bounds(s, (idx + 1) as nat);
            lemma_line_start_monotone(s, idx as nat, (idx + 1) as nat);
        }
        if idx == rope_len_lines(&self.text) - 1 {
            len
        } else {
            proof {
                lemma_line_holds_break(s, idx as nat);
            }
            let end = rope_line_to_char(&self.text, idx + 1);
            if end >= 2 && rope_char(&self.text, end - 1) == '\u{000A}' && rope_char(
                &self.text,
                end - 2,
            ) == '\u{000D}' {
                len - 2
            } else {
                len - 1
            }
        }
    }

    /// Replaces the whole text by `content`, as one group that a single undo
    /// takes back.
    pub fn reload(&mut self, content: &str)
        ensures
            final(self)@ == old(self)@.reloaded(content@),
            old(self)@.consistent() ==> final(self)@.consistent(),
    {
        let last_row = rope_len_lines(&self.text) - 1;
        let last_col = self.line_len(last_row);
        proof {
            let s = self@.text;
            lemma_last_line(s);
            assert(line_start(s, 0) == 0);
        }
        let replaced = self.replace_text(0, 0, last_row, last_col, content);
        assert(replaced is Ok);
    }

    /// What a save has to write: the whole text, to the document's
    /// canonical path, where the document is dirty; nothing where it is
    /// clean. The caller writes and reports the outcome to `save_file`.
    pub fn pending_save(&self) -> (r: Option<PendingWrite>)
        ensures
            r is Some <==> self@.changed,
            r matches Some(write) ==> write.path@ == self@.abs_path && write.text@ == self@.text,
    {
        if !self.changed {
            None
        } else {
            Some(PendingWrite { path: self.abs_path.clone(), text: rope_to_string(&self.text) })
        }
    }

    /// Records the outcome of the write that `pending_save` asked for: a
    /// write that succeeded leaves the document clean, one that failed leaves
    /// it dirty and hands the failure on.
    pub fn save_file(&mut self, written: Result<(), DocError>) -> (r: Result<(), DocError>)
        ensures
            r == written,
            final(self)@ == (CodeView {
                changed: old(self)@.changed && written is Err,
                ..old(self)@
            }),
    {
        if written.is_ok() {
            self.changed = false;
        }
        written
    }

    /// Records what was found or done on disk for the document's file:
    /// `None` where the file was there already, else the outcome of creating
    /// it, which on success is the canonical path of the new file.
    pub fn ensure_file_exists(&mut self, created: Option<Result<String, DocError>>) -> (r: Result<
        (),
        DocError,
    >)
        ensures
            match created {
                None => r is Ok && final(self)@ == old(self)@,
                Some(Ok(path)) => r is Ok && final(self)@ == (CodeView {
                    abs_path: path@,
                    ..old(self)@
                }),
                Some(Err(e)) => r == Err::<(), DocError>(e) && final(self)@ == old(self)@,
            },
    {
        match created {
            None => Ok(()),
            Some(Ok(path)) => {
                self.abs_path = path;
                Ok(())
            },
            Some(Err(e)) => Err(e),
        }
    }
}

} // verus!
