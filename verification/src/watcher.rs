//! What the engine makes of a change that was seen on disk.

use vstd::prelude::*;
use crate::registry::DocumentRegistry;

verus! {

/// What was seen to happen to a file on disk.
#[derive(Debug, Clone, Copy, PartialEq, Eq, Structural)]
pub enum WatchKind {
    /// The file was created.
    Create,
    /// The file was removed.
    Remove,
    /// The file's content was changed.
    Modify,
    /// Anything else.
    Other,
}

/// The name of the event that tells the sessions of what was seen; `None`
/// where they are not told.
pub open spec fn event_name(kind: WatchKind) -> Option<Seq<char>> {
    match kind {
        WatchKind::Create => Some("watcher:create"@),
        WatchKind::Remove => Some("watcher:remove"@),
        WatchKind::Modify => Some("watcher:modify"@),
        WatchKind::Other => None,
    }
}

/// The name of the event that tells the sessions of what was seen.
pub fn watch_event_name(kind: WatchKind) -> (name: Option<&'static str>)
    ensures
        name is Some <==> event_name(kind) is Some,
        name matches Some(n) ==> event_name(kind) == Some(n@),
{
    match kind {
        WatchKind::Create => Some("watcher:create"),
        WatchKind::Remove => Some("watcher:remove"),
        WatchKind::Modify => Some("watcher:modify"),
        WatchKind::Other => None,
    }
}

/// Whether the file at `path` has to be read again: its content was
/// changed and the registry holds a document for it.
pub fn needs_reload(f2c: &DocumentRegistry, path: &str, kind: WatchKind) -> (r: bool)
    requires
        f2c.wf(),
    ensures
        r == (kind == WatchKind::Modify && f2c@.contains_key(path@)),
{
    match kind {
        WatchKind::Modify => f2c.contains(path),
        _ => false,
    }
}

/// Takes in what was seen to happen to the file at `path`. Where its
/// content was changed and the registry holds a document for it, the
/// document's text is replaced by `content`, what was read of the file, as
/// one group that a single undo takes back; without a content nothing is
/// replaced. What is returned is the name of the event that tells the
/// sessions.
pub fn handle_watch_event(
    f2c: &mut DocumentRegistry,
    path: &str,
    kind: WatchKind,
    content: Option<&str>,
) -> (name: Option<&'static str>)
    requires
        old(f2c).wf(),
    ensures
        final(f2c).wf(),
        name is Some <==> event_name(kind) is Some,
        name matches Some(n) ==> event_name(kind) == Some(n@),
        final(f2c)@ == if kind == WatchKind::Modify && old(f2c)@.contains_key(path@)
            && content is Some {
            old(f2c)@.insert(path@, old(f2c)@[path@].reloaded(content->Some_0@))
        } else {
            old(f2c)@
        },
{
    match kind {
        WatchKind::Modify => {
            match content {
                Some(text) => {
                    match f2c.get_mut(path) {
                        Some(code) => {
                            code.reload(text);
                        },
                        None => {},
                    }
                },
                None => {},
            }
        },
        _ => {},
    }
    watch_event_name(kind)
}

} // verus!
