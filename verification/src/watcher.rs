//! Which changes in a watched folder lead to a synchronisation. The kinds
//! of change mirror the file watcher's: what the decision does not read
//! (the details of an access, a creation, a removal or a data or metadata
//! change) is left out.
use vstd::prelude::*;
use crate::config::{Path, PathView};

verus! {

/// How a file was renamed.
#[derive(Clone, Copy, Debug, PartialEq, Eq, Structural)]
pub enum RenameMode {
    Any,
    To,
    From,
    Both,
    Other,
}

/// How a file was modified.
#[derive(Clone, Copy, Debug, PartialEq, Eq, Structural)]
pub enum ModifyKind {
    Any,
    Data,
    Metadata,
    Name(RenameMode),
    Other,
}

/// What happened to a file.
#[derive(Clone, Copy, Debug, PartialEq, Eq, Structural)]
pub enum EventKind {
    Any,
    Access,
    Create,
    Modify(ModifyKind),
    Remove,
    Other,
}

/// A change is synchronised when the file was modified in a way not
/// described further, renamed to its name, or removed.
pub open spec fn syncs(kind: EventKind) -> bool {
    ||| kind == EventKind::Modify(ModifyKind::Any)
    ||| kind == EventKind::Modify(ModifyKind::Name(RenameMode::To))
    ||| kind is Remove
}

/// Whether a change of this kind is synchronised.
pub fn should_sync(kind: EventKind) -> (b: bool)
    ensures
        b == syncs(kind),
{
    match kind {
        EventKind::Modify(ModifyKind::Any) => true,
        EventKind::Modify(ModifyKind::Name(RenameMode::To)) => true,
        EventKind::Remove => true,
        _ => false,
    }
}

/// What a change in the watched folder `watched` leads to: nothing, or the
/// synchronisation of the first changed path under the watched folder's
/// server path and folder type.
pub fn watch_event(watched: &Path, kind: EventKind, changed: &Vec<String>) -> (r: Option<Path>)
    requires
        syncs(kind) ==> changed.len() > 0,
    ensures
        r is Some <==> syncs(kind),
        r matches Some(p) ==> p@ == (PathView {
            path: changed@[0]@,
            srv_path: watched.srv_path@,
            folder_type: watched.folder_type@,
        }),
{
    if should_sync(kind) {
        Some(
            Path {
                path: changed[0].clone(),
                srv_path: watched.srv_path.clone(),
                folder_type: watched.folder_type.clone(),
            },
        )
    } else {
        None
    }
}

} // verus!
