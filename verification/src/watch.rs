//! What the file watchers do with each file-system event: the project
//! watcher re-indexes or drops pages, the stylesheet watcher recompiles
//! written files.
use vstd::prelude::*;
use crate::text::{contains_str, has_infix};

verus! {

/// A debounced file-system event, one variant for each kind the watcher
/// reports, carrying the paths it names.
#[derive(Debug)]
pub enum FsEvent<P> {
    NoticeWrite(P),
    NoticeRemove(P),
    Create(P),
    Write(P),
    Chmod(P),
    Remove(P),
    Rename(P, P),
    Rescan,
    Error(Option<P>),
}

/// What the project index does with an event.
#[derive(Debug)]
pub enum IndexAction<P> {
    /// Read the page at the path and index it.
    Process(P),
    /// Drop the project whose id is the file name of the path.
    Remove(P),
    /// Nothing.
    Ignore,
}

/// The project index's response to an event: a removed file drops the
/// project named like it; a written, created, changed or renamed file (at
/// its new path), or a notice of either, is read again; the rest is ignored.
pub fn index_action<P>(event: FsEvent<P>) -> (res: IndexAction<P>)
    ensures
        match event {
            FsEvent::NoticeWrite(p) => res == IndexAction::Process(p),
            FsEvent::NoticeRemove(p) => res == IndexAction::Process(p),
            FsEvent::Create(p) => res == IndexAction::Process(p),
            FsEvent::Write(p) => res == IndexAction::Process(p),
            FsEvent::Chmod(p) => res == IndexAction::Process(p),
            FsEvent::Remove(p) => res == IndexAction::Remove(p),
            FsEvent::Rename(_, p) => res == IndexAction::Process(p),
            FsEvent::Rescan => res == IndexAction::<P>::Ignore,
            FsEvent::Error(_) => res == IndexAction::<P>::Ignore,
        },
{
    match event {
        FsEvent::NoticeWrite(p) => IndexAction::Process(p),
        FsEvent::NoticeRemove(p) => IndexAction::Process(p),
        FsEvent::Create(p) => IndexAction::Process(p),
        FsEvent::Write(p) => IndexAction::Process(p),
        FsEvent::Chmod(p) => IndexAction::Process(p),
        FsEvent::Remove(p) => IndexAction::Remove(p),
        FsEvent::Rename(_, p) => IndexAction::Process(p),
        FsEvent::Rescan => IndexAction::Ignore,
        FsEvent::Error(_) => IndexAction::Ignore,
    }
}

/// The stylesheet watcher's response to an event: the path of a written
/// file is recompiled, nothing else is.
pub fn stylesheet_action<P>(event: FsEvent<P>) -> (res: Option<P>)
    ensures
        match event {
            FsEvent::Write(p) => res == Some(p),
            _ => res is None,
        },
{
    match event {
        FsEvent::Write(p) => Some(p),
        _ => None,
    }
}

/// A file whose name contains `categories.yml` is the categories file, not a
/// project page, and is not indexed.
pub fn is_category_file(file_name: &str) -> (res: bool)
    ensures
        res == has_infix(file_name@, "categories.yml"@),
{
    contains_str(file_name, "categories.yml")
}

} // verus!
