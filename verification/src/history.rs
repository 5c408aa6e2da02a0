//! The mathematical model of a document: its text and its two stacks of
//! changes, and what an edit, an undo and a redo make of them.

use vstd::prelude::*;
use crate::code::Operation;
use crate::text::{insert_at, line_count, line_length, remove_range};

verus! {

/// A change as the contracts see it.
pub struct ChangeView {
    pub start: nat,
    pub operation: Operation,
    pub text: Seq<char>,
    pub row: nat,
    pub column: nat,
}

/// A document as the contracts see it.
pub struct CodeView {
    pub file_name: Seq<char>,
    pub abs_path: Seq<char>,
    pub lang: Seq<char>,
    pub text: Seq<char>,
    pub changed: bool,
    pub undo_history: Seq<ChangeView>,
    pub redo_history: Seq<ChangeView>,
}

impl ChangeView {
    /// The entry of an insertion of `text` at `start`.
    pub open spec fn inserted(start: nat, text: Seq<char>, row: nat, column: nat) -> ChangeView {
        ChangeView { start, operation: Operation::Insert, text, row, column }
    }

    /// The entry of a removal of `text` from `start`.
    pub open spec fn removed(start: nat, text: Seq<char>, row: nat, column: nat) -> ChangeView {
        ChangeView { start, operation: Operation::Remove, text, row, column }
    }

    /// The marker that opens (`Start`) or closes (`End`) a group.
    pub open spec fn marker(operation: Operation, start: nat, row: nat, column: nat) -> ChangeView {
        ChangeView { start, operation, text: Seq::empty(), row, column }
    }

    /// The index just past the entry's text, where that text starts at
    /// `start`.
    pub open spec fn end(self) -> int {
        (self.start + self.text.len()) as int
    }

    /// The entry stands for an edit of the text, not for a group marker.
    pub open spec fn is_edit(self) -> bool {
        self.operation == Operation::Insert || self.operation == Operation::Remove
    }

    /// Replayed in the given direction, the entry puts its text in. Forward
    /// is the direction of the first edit and of a redo; backward is that
    /// of an undo.
    pub open spec fn puts_in(self, forward: bool) -> bool {
        (self.operation == Operation::Insert) == forward
    }

    /// The entry can be replayed on `text` without leaving it.
    pub open spec fn fits(self, text: Seq<char>, forward: bool) -> bool {
        if !self.is_edit() {
            true
        } else if self.puts_in(forward) {
            self.start <= text.len()
        } else {
            self.end() <= text.len()
        }
    }

    /// The entry can be replayed on `text`, and what it would take out is
    /// what it recorded.
    pub open spec fn matches(self, text: Seq<char>, forward: bool) -> bool {
        &&& self.fits(text, forward)
        &&& self.is_edit() && !self.puts_in(forward) ==> text.subrange(
            self.start as int,
            self.end(),
        ) == self.text
    }

    /// The text after the entry is replayed on it.
    pub open spec fn apply(self, text: Seq<char>, forward: bool) -> Seq<char> {
        if !self.is_edit() {
            text
        } else if self.puts_in(forward) {
            insert_at(text, self.start as int, self.text)
        } else {
            remove_range(text, self.start as int, self.end())
        }
    }
}

/// Every edit that one replay takes from `stack` stays inside a text of
/// `len` characters: what `replay_fits` says, told of the text's length
/// alone.
pub open spec fn stack_fits(len: int, stack: Seq<ChangeView>, forward: bool, grouped: bool) -> bool
    decreases stack.len(),
{
    if stack.len() == 0 {
        true
    } else {
        let c = stack.last();
        if c.operation == Operation::Start {
            true
        } else if c.operation == Operation::End {
            stack_fits(len, stack.drop_last(), forward, true)
        } else if c.puts_in(forward) {
            &&& c.start <= len
            &&& grouped ==> stack_fits(len + c.text.len(), stack.drop_last(), forward, true)
        } else {
            &&& c.end() <= len
            &&& grouped ==> stack_fits(len - c.text.len(), stack.drop_last(), forward, true)
        }
    }
}

/// Every entry of `stack`, from the top down, can be replayed in turn on
/// what the entries above it left of `text`, and takes out what it recorded.
pub open spec fn replayable(text: Seq<char>, stack: Seq<ChangeView>, forward: bool) -> bool
    decreases stack.len(),
{
    stack.len() == 0 || {
        &&& stack.last().matches(text, forward)
        &&& replayable(stack.last().apply(text, forward), stack.drop_last(), forward)
    }
}

impl CodeView {
    /// An empty, clean document without a name.
    pub open spec fn empty() -> CodeView {
        CodeView {
            file_name: Seq::empty(),
            abs_path: Seq::empty(),
            lang: Seq::empty(),
            text: Seq::empty(),
            changed: false,
            undo_history: Seq::empty(),
            redo_history: Seq::empty(),
        }
    }

    /// The document after `text` is inserted at `at`: the text is spliced,
    /// the edit is on top of the undo stack, the redo stack is empty and
    /// the document is dirty.
    pub open spec fn insert(self, at: nat, text: Seq<char>, row: nat, column: nat) -> CodeView {
        CodeView {
            text: insert_at(self.text, at as int, text),
            changed: true,
            undo_history: self.undo_history.push(ChangeView::inserted(at, text, row, column)),
            redo_history: Seq::empty(),
            ..self
        }
    }

    /// The document after the characters from `from` to `to` are removed:
    /// the text is spliced, the edit with the removed characters is on top
    /// of the undo stack, the redo stack is empty and the document is dirty.
    pub open spec fn remove(self, from: nat, to: nat, row: nat, column: nat) -> CodeView {
        CodeView {
            text: remove_range(self.text, from as int, to as int),
            changed: true,
            undo_history: self.undo_history.push(
                ChangeView::removed(from, self.text.subrange(from as int, to as int), row, column),
            ),
            redo_history: Seq::empty(),
            ..self
        }
    }

    /// The document with a group marker on top of the undo stack.
    pub open spec fn mark(
        self,
        operation: Operation,
        start: nat,
        row: nat,
        column: nat,
    ) -> CodeView {
        CodeView {
            undo_history: self.undo_history.push(ChangeView::marker(operation, start, row, column)),
            ..self
        }
    }

    /// The document after the characters from `from` to `to` are replaced by
    /// `text`, as one group: an opening marker, the removal, the insertion
    /// and a closing marker.
    pub open spec fn replace(
        self,
        from: nat,
        to: nat,
        text: Seq<char>,
        row: nat,
        column: nat,
        row1: nat,
        column1: nat,
    ) -> CodeView {
        self.mark(Operation::Start, from, row1, column1).remove(from, to, row1, column1).insert(
            from,
            text,
            row,
            column,
        ).mark(Operation::End, from, row1, column1)
    }

    /// The document after its whole text is replaced by `content`, as one
    /// group: the range replaced runs from the start of the text to its end,
    /// and the markers record the last line and that line's length.
    pub open spec fn reloaded(self, content: Seq<char>) -> CodeView {
        self.replace(
            0,
            self.text.len(),
            content,
            0,
            0,
            (line_count(self.text) - 1) as nat,
            line_length(self.text, (line_count(self.text) - 1) as nat) as nat,
        )
    }

    /// The document with all of its text replaced and marked dirty; the
    /// stacks stay as they are.
    pub open spec fn with_text(self, text: Seq<char>) -> CodeView {
        CodeView { text, changed: true, ..self }
    }

    /// The stack that a replay takes entries from: the redo stack forward,
    /// the undo stack backward.
    pub open spec fn source(self, forward: bool) -> Seq<ChangeView> {
        if forward {
            self.redo_history
        } else {
            self.undo_history
        }
    }

    /// The stack that a replay puts entries on.
    pub open spec fn target(self, forward: bool) -> Seq<ChangeView> {
        self.source(!forward)
    }

    /// The document without the top entry of the source stack.
    pub open spec fn popped(self, forward: bool) -> CodeView {
        if forward {
            CodeView { redo_history: self.redo_history.drop_last(), ..self }
        } else {
            CodeView { undo_history: self.undo_history.drop_last(), ..self }
        }
    }

    /// The document after the edit `c` is replayed: the text is spliced, the
    /// document is dirty and `c` is on top of the target stack.
    pub open spec fn replayed(self, c: ChangeView, forward: bool) -> CodeView {
        if forward {
            CodeView {
                text: c.apply(self.text, forward),
                changed: true,
                undo_history: self.undo_history.push(c),
                ..self
            }
        } else {
            CodeView {
                text: c.apply(self.text, forward),
                changed: true,
                redo_history: self.redo_history.push(c),
                ..self
            }
        }
    }

    /// What one undo (backward) or redo (forward) makes of the document, and
    /// the edits that it replayed, in the order of their replay. Entries
    /// are popped from the source stack:
    /// - an empty stack ends the replay with nothing to report, whatever
    ///   was replayed before;
    /// - an edit is replayed and put on the target stack, and ends the replay
    ///   unless a group is open;
    /// - a closing marker opens a group and is dropped;
    /// - an opening marker is dropped and ends the replay.
    pub open spec fn replay(self, forward: bool, grouped: bool, done: Seq<ChangeView>) -> (
        CodeView,
        Option<Seq<ChangeView>>,
    )
        decreases self.source(forward).len(),
    {
        if self.source(forward).len() == 0 {
            (self, None)
        } else {
            let c = self.source(forward).last();
            let rest = self.popped(forward);
            if c.operation == Operation::Start {
                (rest, Some(done))
            } else if c.operation == Operation::End {
                rest.replay(forward, true, done)
            } else if grouped {
                rest.replayed(c, forward).replay(forward, true, done.push(c))
            } else {
                (rest.replayed(c, forward), Some(done.push(c)))
            }
        }
    }

    /// Every edit that one undo or redo replays stays inside the text.
    pub open spec fn replay_fits(self, forward: bool, grouped: bool) -> bool
        decreases self.source(forward).len(),
    {
        if self.source(forward).len() == 0 {
            true
        } else {
            let c = self.source(forward).last();
            let rest = self.popped(forward);
            if c.operation == Operation::Start {
                true
            } else if c.operation == Operation::End {
                rest.replay_fits(forward, true)
            } else {
                &&& c.fits(self.text, forward)
                &&& grouped ==> rest.replayed(c, forward).replay_fits(forward, true)
            }
        }
    }

    /// The document after one undo, and the edits undone.
    pub open spec fn undo(self) -> (CodeView, Option<Seq<ChangeView>>) {
        self.replay(false, false, Seq::empty())
    }

    /// The document after one redo, and the edits redone.
    pub open spec fn redo(self) -> (CodeView, Option<Seq<ChangeView>>) {
        self.replay(true, false, Seq::empty())
    }

    /// Every edit that one undo would replay stays inside the text.
    pub open spec fn undo_fits(self) -> bool {
        self.replay_fits(false, false)
    }

    /// Every edit that one redo would replay stays inside the text.
    pub open spec fn redo_fits(self) -> bool {
        self.replay_fits(true, false)
    }

    /// The stacks agree with the text: the whole undo stack can be undone
    /// and the whole redo stack redone, each entry finding in the text what
    /// it recorded.
    pub open spec fn consistent(self) -> bool {
        &&& replayable(self.text, self.undo_history, false)
        &&& replayable(self.text, self.redo_history, true)
    }
}

/// Whether a replay stays inside the text depends on the text's length
/// alone.
pub proof fn lemma_replay_fits_by_length(v: CodeView, forward: bool, grouped: bool)
    ensures
        v.replay_fits(forward, grouped) == stack_fits(
            v.text.len() as int,
            v.source(forward),
            forward,
            grouped,
        ),
    decreases v.source(forward).len(),
{
    if v.source(forward).len() > 0 {
        let c = v.source(forward).last();
        let rest = v.popped(forward);
        assert(rest.source(forward) == v.source(forward).drop_last());
        if c.operation == Operation::Start {
        } else if c.operation == Operation::End {
            lemma_replay_fits_by_length(rest, forward, true);
        } else if c.fits(v.text, forward) {
            let next = rest.replayed(c, forward);
            assert(next.source(forward) == v.source(forward).drop_last());
            lemma_replay_fits_by_length(next, forward, true);
        }
    }
}

/// An entry that matches a text can be replayed back on what it made of the
/// text, and gives the text back.
pub proof fn lemma_apply_inverse(c: ChangeView, text: Seq<char>, forward: bool)
    requires
        c.matches(text, forward),
    ensures
        c.matches(c.apply(text, forward), !forward),
        c.apply(c.apply(text, forward), !forward) == text,
{
    let next = c.apply(text, forward);
    if !c.is_edit() {
    } else if c.puts_in(forward) {
        assert(next.subrange(c.start as int, c.end()) =~= c.text);
        assert(c.apply(next, !forward) =~= text);
    } else {
        assert(c.apply(next, !forward) =~= text);
    }
}

/// An insertion inside the text leaves consistent stacks consistent.
pub proof fn lemma_insert_consistent(
    v: CodeView,
    at: nat,
    text: Seq<char>,
    row: nat,
    column: nat,
)
    requires
        v.consistent(),
        at <= v.text.len(),
    ensures
        v.insert(at, text, row, column).consistent(),
{
    let c = ChangeView::inserted(at, text, row, column);
    let next = v.insert(at, text, row, column);
    assert(c.matches(v.text, true));
    lemma_apply_inverse(c, v.text, true);
    assert(next.undo_history.drop_last() =~= v.undo_history);
}

/// A removal inside the text leaves consistent stacks consistent.
pub proof fn lemma_remove_consistent(v: CodeView, from: nat, to: nat, row: nat, column: nat)
    requires
        v.consistent(),
        from <= to <= v.text.len(),
    ensures
        v.remove(from, to, row, column).consistent(),
{
    let c = ChangeView::removed(from, v.text.subrange(from as int, to as int), row, column);
    let next = v.remove(from, to, row, column);
    assert(c.matches(v.text, true));
    lemma_apply_inverse(c, v.text, true);
    assert(next.undo_history.drop_last() =~= v.undo_history);
}

/// A group marker leaves consistent stacks consistent.
pub proof fn lemma_mark_consistent(
    v: CodeView,
    operation: Operation,
    start: nat,
    row: nat,
    column: nat,
)
    requires
        v.consistent(),
        operation == Operation::Start || operation == Operation::End,
    ensures
        v.mark(operation, start, row, column).consistent(),
{
    let next = v.mark(operation, start, row, column);
    assert(next.undo_history.drop_last() =~= v.undo_history);
}

/// With consistent stacks, every edit that an undo or a redo replays stays
/// inside the text, and the stacks are consistent afterwards.
pub proof fn lemma_replay_consistent(
    v: CodeView,
    forward: bool,
    grouped: bool,
    done: Seq<ChangeView>,
)
    requires
        v.consistent(),
    ensures
        v.replay_fits(forward, grouped),
        v.replay(forward, grouped, done).0.consistent(),
    decreases v.source(forward).len(),
{
    if v.source(forward).len() > 0 {
        let c = v.source(forward).last();
        let rest = v.popped(forward);
        assert(rest.source(forward) == v.source(forward).drop_last());
        assert(c.matches(v.text, forward));
        if c.operation == Operation::Start {
            assert(rest.consistent());
        } else if c.operation == Operation::End {
            assert(rest.consistent());
            lemma_replay_consistent(rest, forward, true, done);
        } else {
            let next = rest.replayed(c, forward);
            lemma_apply_inverse(c, v.text, forward);
            assert(next.target(forward).drop_last() =~= v.target(forward));
            assert(next.consistent());
            if grouped {
                lemma_replay_consistent(next, forward, true, done.push(c));
            }
        }
    }
}

/// With nothing on the undo stack, an undo reports nothing and leaves the
/// document as it is; so does a redo with nothing on the redo stack.
pub proof fn replay_of_nothing(v: CodeView, forward: bool)
    requires
        v.source(forward).len() == 0,
    ensures
        v.replay(forward, false, Seq::empty()) == (v, None::<Seq<ChangeView>>),
        !forward ==> v.undo() == (v, None::<Seq<ChangeView>>),
        forward ==> v.redo() == (v, None::<Seq<ChangeView>>),
{
}

/// One undo takes an insertion back: the text is what it was before the
/// insertion, the undo stack too, the insertion is what the undo reports,
/// and it is the one entry of the redo stack.
pub proof fn undo_of_insert(v: CodeView, at: nat, text: Seq<char>, row: nat, column: nat)
    requires
        at <= v.text.len(),
    ensures
        v.insert(at, text, row, column).undo_fits(),
        v.insert(at, text, row, column).undo() == (
            CodeView {
                changed: true,
                redo_history: seq![ChangeView::inserted(at, text, row, column)],
                ..v
            },
            Some(seq![ChangeView::inserted(at, text, row, column)]),
        ),
{
    let c = ChangeView::inserted(at, text, row, column);
    let next = v.insert(at, text, row, column);
    let after = next.popped(false).replayed(c, false);
    assert(c.matches(v.text, true));
    lemma_apply_inverse(c, v.text, true);
    assert(after.undo_history =~= v.undo_history);
    assert(after.redo_history =~= seq![c]);
    assert(Seq::<ChangeView>::empty().push(c) =~= seq![c]);
}

/// One undo takes a removal back: the text is what it was before the
/// removal, the undo stack too, the removal is what the undo reports, and it
/// is the one entry of the redo stack.
pub proof fn undo_of_remove(v: CodeView, from: nat, to: nat, row: nat, column: nat)
    requires
        from <= to <= v.text.len(),
    ensures
        v.remove(from, to, row, column).undo_fits(),
        v.remove(from, to, row, column).undo() == (
            CodeView {
                changed: true,
                redo_history: seq![
                    ChangeView::removed(from, v.text.subrange(from as int, to as int), row, column),
                ],
                ..v
            },
            Some(
                seq![
                    ChangeView::removed(from, v.text.subrange(from as int, to as int), row, column),
                ],
            ),
        ),
{
    let c = ChangeView::removed(from, v.text.subrange(from as int, to as int), row, column);
    let next = v.remove(from, to, row, column);
    let after = next.popped(false).replayed(c, false);
    assert(c.matches(v.text, true));
    lemma_apply_inverse(c, v.text, true);
    assert(after.undo_history =~= v.undo_history);
    assert(after.redo_history =~= seq![c]);
    assert(Seq::<ChangeView>::empty().push(c) =~= seq![c]);
}

/// One undo takes a whole replacement back, not only its insertion: the
/// text is exactly what it was before the replacement, the undo stack too,
/// and the undo reports the insertion and the removal, in the order in
/// which it took them back.
pub proof fn undo_of_replace(
    v: CodeView,
    from: nat,
    to: nat,
    text: Seq<char>,
    row: nat,
    column: nat,
    row1: nat,
    column1: nat,
)
    requires
        from <= to <= v.text.len(),
    ensures
        v.replace(from, to, text, row, column, row1, column1).undo_fits(),
        v.replace(from, to, text, row, column, row1, column1).undo().0.text == v.text,
        v.replace(from, to, text, row, column, row1, column1).undo().0.undo_history
            == v.undo_history,
        v.replace(from, to, text, row, column, row1, column1).undo().1 == Some(
            seq![
                ChangeView::inserted(from, text, row, column),
                ChangeView::removed(from, v.text.subrange(from as int, to as int), row1, column1),
            ],
        ),
{
    let open = ChangeView::marker(Operation::Start, from, row1, column1);
    let close = ChangeView::marker(Operation::End, from, row1, column1);
    let rem = ChangeView::removed(from, v.text.subrange(from as int, to as int), row1, column1);
    let ins = ChangeView::inserted(from, text, row, column);
    let a = v.mark(Operation::Start, from, row1, column1);
    let b = a.remove(from, to, row1, column1);
    let c = b.insert(from, text, row, column);
    let d = c.mark(Operation::End, from, row1, column1);
    assert(d == v.replace(from, to, text, row, column, row1, column1));
    assert(rem.matches(v.text, true));
    lemma_apply_inverse(rem, v.text, true);
    assert(ins.matches(b.text, true));
    lemma_apply_inverse(ins, b.text, true);

    // The closing marker goes, and opens the group.
    let d1 = d.popped(false);
    assert(d.undo_history.last() == close);
    assert(d1.undo_history =~= c.undo_history);
    // The insertion is taken back.
    assert(d1.undo_history.last() == ins);
    let d2 = d1.popped(false).replayed(ins, false);
    assert(d1.popped(false).undo_history =~= b.undo_history);
    assert(d2.text == b.text);
    // The removal is taken back.
    assert(d2.undo_history.last() == rem);
    let d3 = d2.popped(false).replayed(rem, false);
    assert(d2.popped(false).undo_history =~= a.undo_history);
    assert(d3.text == v.text);
    // The opening marker goes, and ends the undo.
    assert(d3.undo_history.last() == open);
    let d4 = d3.popped(false);
    assert(d4.undo_history =~= v.undo_history);
    let done = Seq::<ChangeView>::empty().push(ins).push(rem);
    assert(done =~= seq![ins, rem]);
    assert(d3.replay(false, true, done) == (d4, Some(done)));
    assert(d2.replay(false, true, Seq::<ChangeView>::empty().push(ins)) == (d4, Some(done)));
    assert(d1.replay(false, true, Seq::<ChangeView>::empty()) == (d4, Some(done)));
    assert(d.replay(false, false, Seq::<ChangeView>::empty()) == (d4, Some(done)));
    assert(d3.replay_fits(false, true));
    assert(d2.replay_fits(false, true));
    assert(d1.replay_fits(false, true));
}

/// After a new edit there is nothing to redo, whatever was undone before:
/// a redo reports nothing and leaves the document as the edit made it.
pub proof fn redo_after_edit(
    v: CodeView,
    from: nat,
    to: nat,
    text: Seq<char>,
    row: nat,
    column: nat,
    row1: nat,
    column1: nat,
)
    ensures
        v.insert(from, text, row, column).redo() == (
            v.insert(from, text, row, column),
            None::<Seq<ChangeView>>,
        ),
        v.remove(from, to, row, column).redo() == (
            v.remove(from, to, row, column),
            None::<Seq<ChangeView>>,
        ),
        v.replace(from, to, text, row, column, row1, column1).redo() == (
            v.replace(from, to, text, row, column, row1, column1),
            None::<Seq<ChangeView>>,
        ),
{
}

/// A redo makes again what the undo before it took back: where the top of
/// the undo stack is a single edit that agrees with the text, an undo and
/// then a redo leave the text and both stacks as they were, and both report
/// that edit.
pub proof fn redo_of_undo(v: CodeView)
    requires
        v.undo_history.len() > 0,
        v.undo_history.last().is_edit(),
        v.undo_history.last().matches(v.text, false),
    ensures
        v.undo_fits(),
        v.undo().1 == Some(seq![v.undo_history.last()]),
        v.undo().0.redo_fits(),
        v.undo().0.redo() == (
            CodeView { changed: true, ..v },
            Some(seq![v.undo_history.last()]),
        ),
{
    let c = v.undo_history.last();
    let undone = v.popped(false).replayed(c, false);
    assert(Seq::<ChangeView>::empty().push(c) =~= seq![c]);
    assert(v.undo() == (undone, Some(seq![c])));
    lemma_apply_inverse(c, v.text, false);
    assert(undone.redo_history.last() == c);
    let redone = undone.popped(true).replayed(c, true);
    assert(undone.popped(true).redo_history =~= v.redo_history);
    assert(redone.undo_history =~= v.undo_history);
    assert(redone == CodeView { changed: true, ..v });
}

/// An undo takes back what the redo before it made: where the top of the
/// redo stack is a single edit that agrees with the text, a redo and then an
/// undo leave the text and both stacks as they were.
pub proof fn undo_of_redo(v: CodeView)
    requires
        v.redo_history.len() > 0,
        v.redo_history.last().is_edit(),
        v.redo_history.last().matches(v.text, true),
    ensures
        v.redo_fits(),
        v.redo().1 == Some(seq![v.redo_history.last()]),
        v.redo().0.undo_fits(),
        v.redo().0.undo() == (
            CodeView { changed: true, ..v },
            Some(seq![v.redo_history.last()]),
        ),
{
    let c = v.redo_history.last();
    let redone = v.popped(true).replayed(c, true);
    assert(Seq::<ChangeView>::empty().push(c) =~= seq![c]);
    assert(v.redo() == (redone, Some(seq![c])));
    lemma_apply_inverse(c, v.text, true);
    assert(redone.undo_history.last() == c);
    let undone = redone.popped(false).replayed(c, false);
    assert(redone.popped(false).undo_history =~= v.undo_history);
    assert(undone.redo_history =~= v.redo_history);
    assert(undone == CodeView { changed: true, ..v });
}

} // verus!
