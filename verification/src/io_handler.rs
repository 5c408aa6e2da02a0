//! The messages that sessions send about files, and what the engine makes of
//! an edit message: the change to the document and the notice for the
//! analysis service.

use vstd::prelude::*;
use vstd::string::{StrSliceExecFns, StringExecFns};
use crate::code::{Code, PendingWrite};
use crate::error::DocError;
use crate::history::CodeView;
use crate::registry::{
    distinct, get_or_create_code, get_or_create_empty, listed, DocumentRegistry,
};
use crate::strings::{str_eq, to_chars};
use crate::text::{
    insert_at, lemma_utf16_len_concat, lemma_utf16_prefix_monotone,
    lemma_utf16_to_char_monotone, lemma_utf16_to_char_of_prefix, line_of, line_start,
    remove_range, utf16_len, utf16_length, utf16_to_char,
};
use crate::utils::{
    checked_file_name, drop_whitespace, ignored_path, is_ignored_path, is_whitespace_char,
    option_view, path_file_name, skip_whitespace, string_views, DirEntry,
};

verus! {

/// A session asks for a file's content.
#[derive(Debug, Clone)]
pub struct FileOpenRequest {
    pub path: String,
}

/// A session asks for a directory's entries.
#[derive(Debug, Clone)]
pub struct DirOpenRequest {
    pub path: String,
}

/// A session edits a file. The operation is a code: 0 inserts `text` at
/// `start`, 1 removes `text` from `start`. Offsets count UTF-16 code units.
#[derive(Debug, Clone)]
pub struct FileEdit {
    pub file: String,
    pub operation: usize,
    pub start: usize,
    pub text: String,
}

/// What an edit does.
#[derive(Debug, Clone, Copy, PartialEq, Eq, Structural)]
pub enum Operation {
    Insert,
    Remove,
}

/// One edit of a change message: `text` is inserted at `start`, or is the
/// text to be removed from `start`. Offsets count UTF-16 code units.
#[derive(Debug, Clone)]
pub struct Edit {
    pub operation: Operation,
    pub start: usize,
    pub text: String,
}

/// A session changes a file by a run of edits, each made on what the edits
/// before it left.
#[derive(Debug, Clone)]
pub struct Change {
    pub file: String,
    pub edits: Vec<Edit>,
}

/// A session replaces a file's whole content.
#[derive(Debug, Clone)]
pub struct FileSetRequest {
    pub file: String,
    pub text: String,
}

/// A session asks for a new file or directory.
#[derive(Debug, Clone)]
pub struct CreateRequest {
    pub parent_path: String,
    pub name: String,
    pub is_file: bool,
}

/// What the analysis service is told of an edit: the range that was
/// replaced, by line and UTF-16 column in the text before the edit, and the
/// text that replaced it.
#[derive(Debug, Clone)]
pub struct ContentChange {
    pub start_line: usize,
    pub start_character: usize,
    pub end_line: usize,
    pub end_character: usize,
    pub text: String,
}

/// What became of a change message: the notices of the edits that were
/// made, in their order, and the failure that stopped the run, if any.
#[derive(Debug, Clone)]
pub struct ChangeOutcome {
    pub changes: Vec<ContentChange>,
    pub error: Option<DocError>,
}

/// An edit as the contracts see it.
pub struct EditView {
    pub operation: Operation,
    pub start: nat,
    pub text: Seq<char>,
}

/// A notice for the analysis service as the contracts see it.
pub struct ContentChangeView {
    pub start: (nat, nat),
    pub end: (nat, nat),
    pub text: Seq<char>,
}

impl View for Edit {
    type V = EditView;

    open spec fn view(&self) -> EditView {
        EditView { operation: self.operation, start: self.start as nat, text: self.text@ }
    }
}

impl View for ContentChange {
    type V = ContentChangeView;

    open spec fn view(&self) -> ContentChangeView {
        ContentChangeView {
            start: (self.start_line as nat, self.start_character as nat),
            end: (self.end_line as nat, self.end_character as nat),
            text: self.text@,
        }
    }
}

/// The edits of a message as the contracts see them.
pub open spec fn edit_views(edits: Seq<Edit>) -> Seq<EditView> {
    edits.map_values(|e: Edit| e@)
}

/// The notices as the contracts see them.
pub open spec fn change_views(changes: Seq<ContentChange>) -> Seq<ContentChangeView> {
    changes.map_values(|c: ContentChange| c@)
}

/// The edit that a numbered operation stands for; `None` for a number that
/// stands for none.
pub open spec fn decoded(operation: nat, start: nat, text: Seq<char>) -> Option<EditView> {
    if operation == 0 {
        Some(EditView { operation: Operation::Insert, start, text })
    } else if operation == 1 {
        Some(EditView { operation: Operation::Remove, start, text })
    } else {
        None
    }
}

/// The position of the character offset `offset` as the analysis service
/// counts: the line, and the UTF-16 code units of the characters before the
/// offset on that line.
pub open spec fn protocol_position(text: Seq<char>, offset: int) -> (nat, nat) {
    (
        line_of(text, offset),
        utf16_len(text.subrange(line_start(text, line_of(text, offset)), offset)),
    )
}

impl EditView {
    /// The UTF-16 offset at which the edit ends in the text before it: its
    /// start for an insertion, its start plus the code units of its text for
    /// a removal.
    pub open spec fn end(self) -> nat {
        match self.operation {
            Operation::Insert => self.start,
            Operation::Remove => self.start + utf16_len(self.text),
        }
    }

    /// The edit lies inside `text`.
    pub open spec fn fits(self, text: Seq<char>) -> bool {
        self.end() <= utf16_len(text)
    }

    /// The character offsets of the edit's start and end in `text`.
    pub open spec fn span(self, text: Seq<char>) -> (nat, nat) {
        (utf16_to_char(text, self.start) as nat, utf16_to_char(text, self.end()) as nat)
    }

    /// The document after the edit.
    pub open spec fn apply(self, doc: CodeView) -> CodeView {
        let (from, to) = self.span(doc.text);
        match self.operation {
            Operation::Insert => doc.insert(from, self.text, 0, 0),
            Operation::Remove => doc.remove(from, to, 0, 0),
        }
    }

    /// The notice of the edit for the analysis service.
    pub open spec fn notice(self, doc: CodeView) -> ContentChangeView {
        let (from, to) = self.span(doc.text);
        ContentChangeView {
            start: protocol_position(doc.text, from as int),
            end: protocol_position(doc.text, to as int),
            text: match self.operation {
                Operation::Insert => self.text,
                Operation::Remove => Seq::empty(),
            },
        }
    }
}

/// What a run of edits makes of a document: each edit that lies inside the
/// text is made and noticed; the first that does not ends the run, and is
/// the failure reported.
pub open spec fn run_edits(doc: CodeView, edits: Seq<EditView>) -> (
    CodeView,
    Seq<ContentChangeView>,
    Option<DocError>,
)
    decreases edits.len(),
{
    if edits.len() == 0 {
        (doc, Seq::empty(), None)
    } else if !edits[0].fits(doc.text) {
        (doc, Seq::empty(), Some(DocError::OffsetOutOfRange))
    } else {
        let (last, notices, error) = run_edits(edits[0].apply(doc), edits.drop_first());
        (last, seq![edits[0].notice(doc)] + notices, error)
    }
}

/// A removal takes an insertion back: where an insertion starts on a
/// character boundary of the text, the removal that starts at the same
/// offset and names the inserted text lies inside the text that the
/// insertion left, and leaves the text that there was before.
pub proof fn removal_of_insertion(doc: CodeView, at: int, text: Seq<char>)
    requires
        0 <= at <= doc.text.len(),
    ensures
        ({
            let start = utf16_len(doc.text.subrange(0, at));
            let insertion = EditView { operation: Operation::Insert, start, text };
            let removal = EditView { operation: Operation::Remove, start, text };
            &&& insertion.fits(doc.text)
            &&& insertion.span(doc.text) == (at as nat, at as nat)
            &&& removal.fits(insertion.apply(doc).text)
            &&& removal.span(insertion.apply(doc).text) == (at as nat, (at + text.len()) as nat)
            &&& removal.apply(insertion.apply(doc)).text == doc.text
        }),
{
    let old_text = doc.text;
    let start = utf16_len(old_text.subrange(0, at));
    let insertion = EditView { operation: Operation::Insert, start, text };
    let removal = EditView { operation: Operation::Remove, start, text };
    lemma_utf16_prefix_monotone(old_text, at, old_text.len() as int);
    assert(old_text.subrange(0, old_text.len() as int) =~= old_text);
    lemma_utf16_to_char_of_prefix(old_text, at);
    let new_text = insertion.apply(doc).text;
    assert(new_text == insert_at(old_text, at, text));
    assert(new_text.subrange(0, at) =~= old_text.subrange(0, at));
    assert(new_text.subrange(0, at + text.len()) =~= old_text.subrange(0, at) + text);
    lemma_utf16_len_concat(old_text.subrange(0, at), text);
    lemma_utf16_to_char_of_prefix(new_text, at);
    lemma_utf16_to_char_of_prefix(new_text, at + text.len());
    lemma_utf16_prefix_monotone(new_text, at + text.len(), new_text.len() as int);
    assert(new_text.subrange(0, new_text.len() as int) =~= new_text);
    assert(remove_range(new_text, at, at + text.len()) =~= old_text);
}

/// Makes one edit on the document and tells what the analysis service has
/// to hear of it. An edit that does not lie inside the text is refused, and
/// the document stays as it is.
pub fn apply_edit(code: &mut Code, edit: &Edit) -> (r: Result<ContentChange, DocError>)
    ensures
        r is Ok <==> edit@.fits(old(code)@.text),
        r matches Ok(change) ==> change@ == edit@.notice(old(code)@) && final(code)@
            == edit@.apply(old(code)@),
        r is Err ==> r == Err::<ContentChange, DocError>(DocError::OffsetOutOfRange)
            && final(code)@ == old(code)@,
        old(code)@.consistent() ==> final(code)@.consistent(),
{
    let total = code.len_utf16();
    let ghost text = code@.text;
    match edit.operation {
        Operation::Insert => {
            if edit.start > total {
                return Err(DocError::OffsetOutOfRange);
            }
            let at = code.utf16_to_char_offset(edit.start);
            let (line, character) = code.char_to_position(at);
            let inserted = code.insert_text2(edit.text.as_str(), at);
            assert(inserted is Ok);
            Ok(
                ContentChange {
                    start_line: line,
                    start_character: character,
                    end_line: line,
                    end_character: character,
                    text: edit.text.clone(),
                },
            )
        },
        Operation::Remove => {
            let units = match utf16_length(edit.text.as_str()) {
                Some(units) => units,
                None => { return Err(DocError::OffsetOutOfRange); },
            };
            let end = match edit.start.checked_add(units) {
                Some(end) => end,
                None => { return Err(DocError::OffsetOutOfRange); },
            };
            if end > total {
                return Err(DocError::OffsetOutOfRange);
            }
            let from = code.utf16_to_char_offset(edit.start);
            let to = code.utf16_to_char_offset(end);
            proof {
                lemma_utf16_to_char_monotone(text, edit.start as nat, end as nat);
            }
            let (start_line, start_character) = code.char_to_position(from);
            let (end_line, end_character) = code.char_to_position(to);
            let removed = code.remove_text2(from, to);
            assert(removed is Ok);
            Ok(
                ContentChange {
                    start_line,
                    start_character,
                    end_line,
                    end_character,
                    text: String::new(),
                },
            )
        },
    }
}

/// Makes the edit of a message with a numbered operation. A number that
/// stands for no operation is refused and nothing is applied; so is an edit
/// that does not lie inside the text.
pub fn handle_file_edit(code: &mut Code, edit: &FileEdit) -> (r: Result<ContentChange, DocError>)
    ensures
        match decoded(edit.operation as nat, edit.start as nat, edit.text@) {
            None => r == Err::<ContentChange, DocError>(DocError::UnknownOperation)
                && final(code)@ == old(code)@,
            Some(e) => if e.fits(old(code)@.text) {
                r matches Ok(change) && change@ == e.notice(old(code)@) && final(code)@ == e.apply(
                    old(code)@,
                )
            } else {
                r == Err::<ContentChange, DocError>(DocError::OffsetOutOfRange) && final(code)@
                    == old(code)@
            },
        },
        old(code)@.consistent() ==> final(code)@.consistent(),
{
    let operation = if edit.operation == 0 {
        Operation::Insert
    } else if edit.operation == 1 {
        Operation::Remove
    } else {
        return Err(DocError::UnknownOperation);
    };
    let decoded = Edit { operation, start: edit.start, text: edit.text.clone() };
    apply_edit(code, &decoded)
}

/// Makes the edits of a change message in their order, each on what the
/// edits before it left, and collects their notices. The first edit that
/// does not lie inside the text ends the run: it and the edits after it are
/// not made, the edits before it stay made.
pub fn handle_change(code: &mut Code, change: &Change) -> (r: ChangeOutcome)
    ensures
        final(code)@ == run_edits(old(code)@, edit_views(change.edits@)).0,
        change_views(r.changes@) == run_edits(old(code)@, edit_views(change.edits@)).1,
        r.error == run_edits(old(code)@, edit_views(change.edits@)).2,
        old(code)@.consistent() ==> final(code)@.consistent(),
{
    let ghost edits = edit_views(change.edits@);
    let mut changes: Vec<ContentChange> = Vec::new();
    let mut i: usize = 0;
    proof {
        assert(edits.skip(0) =~= edits);
        assert(change_views(changes@) =~= Seq::empty());
    }
    while i < change.edits.len()
        invariant
            edits == edit_views(change.edits@),
            0 <= i <= change.edits@.len(),
            old(code)@.consistent() ==> code@.consistent(),
            run_edits(old(code)@, edits) == ({
                let (last, notices, error) = run_edits(code@, edits.skip(i as int));
                (last, change_views(changes@) + notices, error)
            }),
        decreases change.edits@.len() - i,
    {
        let ghost rest = edits.skip(i as int);
        let ghost before = code@;
        let ghost noticed = change_views(changes@);
        proof {
            assert(rest[0] == change.edits@[i as int]@);
            assert(rest.drop_first() =~= edits.skip(i + 1));
        }
        match apply_edit(code, &change.edits[i]) {
            Ok(notice) => {
                changes.push(notice);
                proof {
                    let (last, notices, error) = run_edits(code@, edits.skip(i + 1));
                    assert(change_views(changes@) =~= noticed.push(rest[0].notice(before)));
                    assert(noticed + (seq![rest[0].notice(before)] + notices) =~= change_views(
                        changes@,
                    ) + notices);
                }
            },
            Err(e) => {
                proof {
                    assert(noticed + Seq::<ContentChangeView>::empty() =~= noticed);
                }
                return ChangeOutcome { changes, error: Some(e) };
            },
        }
        i += 1;
    }
    proof {
        assert(edits.skip(i as int).len() == 0);
        assert(change_views(changes@) + Seq::<ContentChangeView>::empty() =~= change_views(
            changes@,
        ));
    }
    ChangeOutcome { changes, error: None }
}

/// The answer to a session that opened a file: the file's content, under
/// the path that the session asked for.
#[derive(Debug, Clone)]
pub struct FileOpenResponse {
    pub content: String,
    pub path: String,
    pub success: bool,
}

/// The answer to a session whose request failed: what failed, and the path
/// that the request was about.
#[derive(Debug, Clone)]
pub struct FailureResponse {
    pub error: String,
    pub path: String,
    pub success: bool,
}

/// The answer to a session that saved or set a file: the file's canonical
/// path.
#[derive(Debug, Clone)]
pub struct FileSaveResponse {
    pub success: bool,
    pub file: String,
}

/// The answer to a failed request about `path`.
pub fn failure(e: DocError, path: &str) -> (r: FailureResponse)
    ensures
        r.error@ == e.message_text(),
        r.path@ == path@,
        !r.success,
{
    FailureResponse { error: e.message().to_string(), path: path.to_string(), success: false }
}

/// The files that a session has open.
#[derive(Debug, Clone)]
pub struct SocketData {
    pub opened_files: Vec<String>,
}

impl SocketData {
    /// No file occurs twice among the open ones.
    pub open spec fn wf(&self) -> bool {
        distinct(self.opened_files@)
    }

    /// The open files as a set of paths.
    pub open spec fn paths(&self) -> Set<Seq<char>> {
        Set::new(|path: Seq<char>| listed(self.opened_files@, path))
    }

    /// A session that has no file open.
    pub fn default() -> (r: SocketData)
        ensures
            r.wf(),
            r.paths() == Set::<Seq<char>>::empty(),
    {
        let r = SocketData { opened_files: Vec::new() };
        assert(r.paths() =~= Set::<Seq<char>>::empty());
        r
    }

    /// Where `path` stands among the open files.
    fn find(&self, path: &str) -> (r: Option<usize>)
        ensures
            r is Some <==> listed(self.opened_files@, path@),
            r matches Some(i) ==> i < self.opened_files@.len() && self.opened_files@[i as int]@
                == path@,
    {
        let mut i: usize = 0;
        while i < self.opened_files.len()
            invariant
                0 <= i <= self.opened_files@.len(),
                forall|j: int| 0 <= j < i ==> (#[trigger] self.opened_files@[j])@ != path@,
            decreases self.opened_files@.len() - i,
        {
            if str_eq(self.opened_files[i].as_str(), path) {
                return Some(i);
            }
            i += 1;
        }
        None
    }

    /// Whether the session has `path` open.
    pub fn has_open(&self, path: &str) -> (r: bool)
        ensures
            r == self.paths().contains(path@),
    {
        self.find(path).is_some()
    }

    /// Notes that the session has opened `path`.
    pub fn open(&mut self, path: &str)
        requires
            old(self).wf(),
        ensures
            final(self).wf(),
            final(self).paths() == old(self).paths().insert(path@),
    {
        if self.find(path).is_none() {
            self.opened_files.push(path.to_string());
            proof {
                let before = old(self).opened_files@;
                let after = final(self).opened_files@;
                assert(after[before.len() as int]@ == path@);
                assert forall|p: Seq<char>| listed(after, p) <==> listed(before, p) || p
                    == path@ by {
                    if listed(after, p) {
                        let i = choose|i: int| 0 <= i < after.len() && (#[trigger] after[i])@ == p;
                        if i < before.len() {
                            assert(before[i]@ == p);
                        }
                    }
                    if listed(before, p) {
                        let i = choose|i: int|
                            0 <= i < before.len() && (#[trigger] before[i])@ == p;
                        assert(after[i]@ == p);
                    }
                }
                assert(final(self).paths() =~= old(self).paths().insert(path@));
            }
        } else {
            proof {
                assert(final(self).paths() =~= old(self).paths().insert(path@));
            }
        }
    }

    /// Notes that the session has closed `path`.
    pub fn close(&mut self, path: &str)
        requires
            old(self).wf(),
        ensures
            final(self).wf(),
            final(self).paths() == old(self).paths().remove(path@),
    {
        match self.find(path) {
            Some(i) => {
                let _ = self.opened_files.remove(i);
                proof {
                    let before = old(self).opened_files@;
                    let after = final(self).opened_files@;
                    assert(after =~= before.remove(i as int));
                    assert forall|p: Seq<char>| listed(after, p) <==> listed(before, p) && p
                        != path@ by {
                        if listed(after, p) {
                            let j = choose|j: int|
                                0 <= j < after.len() && (#[trigger] after[j])@ == p;
                            if j < i {
                                assert(before[j]@ == p);
                            } else {
                                assert(before[j + 1]@ == p);
                            }
                        }
                        if listed(before, p) && p != path@ {
                            let j = choose|j: int|
                                0 <= j < before.len() && (#[trigger] before[j])@ == p;
                            if j < i {
                                assert(after[j]@ == p);
                            } else {
                                assert(after[j - 1]@ == p);
                            }
                        }
                    }
                    assert(final(self).paths() =~= old(self).paths().remove(path@));
                }
            },
            None => {
                proof {
                    assert(final(self).paths() =~= old(self).paths().remove(path@));
                }
            },
        }
    }
}

/// Opens a file for a session: takes the document of the canonical path
/// `abs_path`, which `loaded` provides where the registry has none yet.
/// The answer holds the document's text under the path that the session
/// asked for; beside it stands the document's language, for the analysis
/// service to be told. A failure to load is answered as such, and the
/// registry gains no entry.
pub fn handle_file_open(
    f2c: &mut DocumentRegistry,
    request: &FileOpenRequest,
    abs_path: &str,
    loaded: Result<Code, DocError>,
) -> (r: Result<(FileOpenResponse, String), FailureResponse>)
    requires
        old(f2c).wf(),
    ensures
        final(f2c).wf(),
        r is Ok <==> old(f2c)@.contains_key(abs_path@) || loaded is Ok,
        r matches Ok((response, lang)) ==> {
            let doc = if old(f2c)@.contains_key(abs_path@) {
                old(f2c)@[abs_path@]
            } else {
                loaded->Ok_0@
            };
            &&& response.content@ == doc.text
            &&& response.path@ == request.path@
            &&& response.success
            &&& lang@ == doc.lang
            &&& final(f2c)@ == old(f2c)@.insert(abs_path@, doc)
        },
        r matches Err(response) ==> {
            &&& loaded is Err
            &&& response.error@ == loaded->Err_0.message_text()
            &&& response.path@ == abs_path@
            &&& !response.success
            &&& final(f2c)@ == old(f2c)@
        },
{
    match get_or_create_code(f2c, abs_path, loaded) {
        Ok(code) => Ok(
            (
                FileOpenResponse {
                    content: code.content(),
                    path: request.path.clone(),
                    success: true,
                },
                code.lang.clone(),
            ),
        ),
        Err(e) => Err(failure(e, abs_path)),
    }
}

/// Records for a document the outcome of the write that its save asked
/// for, and answers the session: a write that succeeded leaves the document
/// clean, one that failed leaves it dirty and is answered as a failure.
pub fn handle_file_save(code: &mut Code, abs_path: &str, written: Result<(), DocError>) -> (r:
    Result<FileSaveResponse, FailureResponse>)
    ensures
        final(code)@ == (CodeView {
            changed: old(code)@.changed && written is Err,
            ..old(code)@
        }),
        r is Ok <==> written is Ok,
        r matches Ok(response) ==> response.success && response.file@ == abs_path@,
        r matches Err(response) ==> {
            &&& response.error@ == written->Err_0.message_text()
            &&& response.path@ == abs_path@
            &&& !response.success
        },
{
    match code.save_file(written) {
        Ok(()) => Ok(FileSaveResponse { success: true, file: abs_path.to_string() }),
        Err(e) => Err(failure(e, abs_path)),
    }
}

/// Closes a file for a session: takes the document of the canonical path
/// `abs_path`, which `loaded` provides where the registry has none yet, and
/// tells its language, for the analysis service to be told. The document
/// stays in the registry.
pub fn handle_file_close(
    f2c: &mut DocumentRegistry,
    abs_path: &str,
    loaded: Result<Code, DocError>,
) -> (r: Result<String, DocError>)
    requires
        old(f2c).wf(),
    ensures
        final(f2c).wf(),
        r is Ok <==> old(f2c)@.contains_key(abs_path@) || loaded is Ok,
        r matches Ok(lang) ==> {
            let doc = if old(f2c)@.contains_key(abs_path@) {
                old(f2c)@[abs_path@]
            } else {
                loaded->Ok_0@
            };
            &&& lang@ == doc.lang
            &&& final(f2c)@ == old(f2c)@.insert(abs_path@, doc)
        },
        r matches Err(e) ==> loaded == Err::<Code, DocError>(e) && final(f2c)@ == old(f2c)@,
{
    match get_or_create_code(f2c, abs_path, loaded) {
        Ok(code) => Ok(code.lang.clone()),
        Err(e) => Err(e),
    }
}

/// Replaces the whole content of the file at the canonical path `abs_path`
/// by the text of the request: the document, a new one where the registry
/// has none yet, is named `abs_path`, holds the text and is dirty. What is
/// returned is what has to be written to disk, and where.
pub fn handle_file_set(f2c: &mut DocumentRegistry, abs_path: &str, request: &FileSetRequest) -> (r:
    PendingWrite)
    requires
        old(f2c).wf(),
    ensures
        final(f2c).wf(),
        r.text@ == request.text@,
        r.path@ == if old(f2c)@.contains_key(abs_path@) {
            old(f2c)@[abs_path@].abs_path
        } else {
            abs_path@
        },
        final(f2c)@ == old(f2c)@.insert(
            abs_path@,
            (CodeView {
                file_name: abs_path@,
                ..if old(f2c)@.contains_key(abs_path@) {
                    old(f2c)@[abs_path@]
                } else {
                    CodeView { abs_path: abs_path@, ..CodeView::empty() }
                }
            }).with_text(request.text@),
        ),
{
    let code = get_or_create_empty(f2c, abs_path);
    code.set_file_name(abs_path.to_string());
    code.set_text(request.text.as_str());
    PendingWrite { path: code.abs_path.clone(), text: request.text.clone() }
}

/// The directory that a listing is asked for: the path of the request
/// without the white space around it, or the current directory where that
/// is empty, `.` or `./`.
pub open spec fn directory_asked(path: Seq<char>, current_dir: Seq<char>) -> Seq<char> {
    let first = skip_whitespace(path, 0, path.len() as int);
    let last = drop_whitespace(path, first, path.len() as int);
    let dir = path.subrange(first, last);
    if dir == ""@ || dir == "."@ || dir == "./"@ {
        current_dir
    } else {
        dir
    }
}

/// The directory that a listing is asked for.
pub fn listed_directory(request: &DirOpenRequest, current_dir: &str) -> (dir: String)
    ensures
        dir@ == directory_asked(request.path@, current_dir@),
{
    let chars = to_chars(request.path.as_str());
    let ghost s = request.path@;
    let n = chars.len();
    let mut first: usize = 0;
    while first < n && is_whitespace_char(chars[first])
        invariant
            chars@ == s,
            n == s.len(),
            0 <= first <= n,
            skip_whitespace(s, 0, n as int) == skip_whitespace(s, first as int, n as int),
        decreases n - first,
    {
        first += 1;
    }
    let mut last = n;
    while first < last && is_whitespace_char(chars[last - 1])
        invariant
            chars@ == s,
            n == s.len(),
            first <= last <= n,
            drop_whitespace(s, first as int, n as int) == drop_whitespace(
                s,
                first as int,
                last as int,
            ),
        decreases last - first,
    {
        last -= 1;
    }
    let dir = request.path.as_str().substring_char(first, last);
    if str_eq(dir, "") || str_eq(dir, ".") || str_eq(dir, "./") {
        current_dir.to_string()
    } else {
        dir.to_string()
    }
}

/// The entries of a directory to show: the names of its files and those of
/// its directories.
#[derive(Debug, Clone)]
pub struct DirListing {
    pub files: Vec<String>,
    pub dirs: Vec<String>,
}

/// The names, among the entries from index `from` on, of the directories
/// (`dirs` true) or of the files (`dirs` false) that are shown: those whose
/// path is not passed over and has a final component.
pub open spec fn shown_names(
    entries: Seq<DirEntry>,
    dirs: bool,
    extra_dirs: Option<Seq<char>>,
    extra_files: Option<Seq<char>>,
    from: int,
) -> Seq<Seq<char>>
    decreases entries.len() - from,
{
    if from < 0 || from >= entries.len() {
        Seq::empty()
    } else {
        let entry = entries[from];
        let rest = shown_names(entries, dirs, extra_dirs, extra_files, from + 1);
        if entry.is_dir == dirs && !ignored_path(entry.path@, extra_dirs, extra_files)
            && path_file_name(entry.path@) is Some {
            seq![path_file_name(entry.path@).unwrap()] + rest
        } else {
            rest
        }
    }
}

/// `a` does not come after `b` in the order of strings: the order of the
/// dictionary, by code point.
pub open spec fn str_le(a: Seq<char>, b: Seq<char>) -> bool
    decreases a.len(),
{
    if a.len() == 0 {
        true
    } else if b.len() == 0 {
        false
    } else if a[0] != b[0] {
        (a[0] as u32) < (b[0] as u32)
    } else {
        str_le(a.drop_first(), b.drop_first())
    }
}

/// No name comes after a later one.
pub open spec fn sorted(names: Seq<Seq<char>>) -> bool {
    forall|i: int, j: int| 0 <= i < j < names.len() ==> str_le(names[i], names[j])
}

/// `slice::sort` on strings: the same strings, put in the order of strings.
#[verifier::external_body]
fn sort_names(names: &mut Vec<String>)
    ensures
        string_views(final(names)@).to_multiset() == string_views(old(names)@).to_multiset(),
        sorted(string_views(final(names)@)),
{
    names.sort()
}

/// Sorts what was read of a directory into the files and the directories
/// to show, each list in the order of strings: an entry whose path is
/// passed over is left out, and so is one whose path has no final component.
pub fn handle_dir_list(
    entries: &Vec<DirEntry>,
    extra_dirs: Option<&str>,
    extra_files: Option<&str>,
) -> (listing: DirListing)
    ensures
        string_views(listing.files@).to_multiset() == shown_names(
            entries@,
            false,
            option_view(extra_dirs),
            option_view(extra_files),
            0,
        ).to_multiset(),
        string_views(listing.dirs@).to_multiset() == shown_names(
            entries@,
            true,
            option_view(extra_dirs),
            option_view(extra_files),
            0,
        ).to_multiset(),
        sorted(string_views(listing.files@)),
        sorted(string_views(listing.dirs@)),
{
    let mut files: Vec<String> = Vec::new();
    let mut dirs: Vec<String> = Vec::new();
    let ghost xd = option_view(extra_dirs);
    let ghost xf = option_view(extra_files);
    let mut i: usize = 0;
    proof {
        assert(string_views(files@) =~= Seq::empty());
        assert(string_views(dirs@) =~= Seq::empty());
    }
    while i < entries.len()
        invariant
            xd == option_view(extra_dirs),
            xf == option_view(extra_files),
            0 <= i <= entries@.len(),
            shown_names(entries@, false, xd, xf, 0) == string_views(files@) + shown_names(
                entries@,
                false,
                xd,
                xf,
                i as int,
            ),
            shown_names(entries@, true, xd, xf, 0) == string_views(dirs@) + shown_names(
                entries@,
                true,
                xd,
                xf,
                i as int,
            ),
        decreases entries@.len() - i,
    {
        let entry = &entries[i];
        let ghost file_views = string_views(files@);
        let ghost dir_views = string_views(dirs@);
        let ghost rest_files = shown_names(entries@, false, xd, xf, i + 1);
        let ghost rest_dirs = shown_names(entries@, true, xd, xf, i + 1);
        if !is_ignored_path(entry.path.as_str(), extra_dirs, extra_files) {
            match checked_file_name(entry.path.as_str()) {
                Some(name) => {
                    let ghost shown = name@;
                    if entry.is_dir {
                        dirs.push(name);
                        proof {
                            assert(string_views(dirs@) =~= dir_views.push(shown));
                            assert(dir_views + (seq![shown] + rest_dirs) =~= string_views(dirs@)
                                + rest_dirs);
                        }
                    } else {
                        files.push(name);
                        proof {
                            assert(string_views(files@) =~= file_views.push(shown));
                            assert(file_views + (seq![shown] + rest_files) =~= string_views(
                                files@,
                            ) + rest_files);
                        }
                    }
                },
                None => {},
            }
        }
        i += 1;
    }
    proof {
        assert(string_views(files@) + Seq::<Seq<char>>::empty() =~= string_views(files@));
        assert(string_views(dirs@) + Seq::<Seq<char>>::empty() =~= string_views(dirs@));
    }
    sort_names(&mut dirs);
    sort_names(&mut files);
    DirListing { files, dirs }
}

/// The path of what a create request asks for, before it is made absolute:
/// the name alone where the parent is empty, `.` or `./`, else the parent, a
/// slash and the name.
pub open spec fn requested_path(parent_path: Seq<char>, name: Seq<char>) -> Seq<char> {
    if parent_path == ""@ || parent_path == "."@ || parent_path == "./"@ {
        name
    } else {
        parent_path + "/"@ + name
    }
}

/// The path of what a create request asks for, before it is made absolute,
/// and whether it is absolute already: whether it begins with a slash.
pub fn handle_create(request: &CreateRequest) -> (r: (String, bool))
    ensures
        r.0@ == requested_path(request.parent_path@, request.name@),
        r.1 == (r.0@.len() > 0 && r.0@[0] == '/'),
{
    let parent = request.parent_path.as_str();
    let full_path = if str_eq(parent, "") || str_eq(parent, ".") || str_eq(parent, "./") {
        request.name.clone()
    } else {
        let mut path = request.parent_path.clone();
        path.append("/");
        path.append(request.name.as_str());
        path
    };
    let absolute = full_path.as_str().unicode_len() > 0 && full_path.as_str().get_char(0) == '/';
    (full_path, absolute)
}

} // verus!
